//! `.service` supervisor: the per-unit state machine.
//!
//! A [`ServiceRunner`] says which command to run next and what each result
//! means; running commands, waiting and signalling is left to its caller.
//!
//! 1. Starting runs `ExecCondition`, `ExecStartPre`, then `ExecStart`, waits
//!    for readiness per `Type=`, then runs `ExecStartPost`.
//! 2. On exit, `Restart=` applies with `RestartSec=` backoff and
//!    `RestartSteps=` exponential ramp.
//! 3. Stopping runs `ExecStop`, sends `KillSignal`, then `SIGKILL` after
//!    `TimeoutStopSec`, then runs `ExecStopPost`.

use crate::runtime::notify::{NotifyMessage, NotifyView};
use crate::runtime::state::ActiveState;
use crate::text;
use crate::text::same;
use crate::unit::duration;
use crate::unit::duration::{SdDuration, TimeSpan};
use crate::unit::exec::{ExecFlags, ExecView};
use crate::unit::name::{NameView, UnitName};
use crate::unit::service;
use crate::unit::service::{
    ExitStatus, ExitStatusView, KillMode, ProcessOutcome, ServiceType, ServiceUnit, ServiceView,
};
use vstd::prelude::*;

verus! {

// ---------------------------------------------------------------------
// Exits
// ---------------------------------------------------------------------

/// How a process ended.
#[derive(Debug, Clone, Copy, PartialEq, Eq, Structural)]
pub enum Exit {
    /// With an exit code.
    Code(i32),
    /// By a signal, with or without a core dump.
    Signal(bool),
    /// In some other way.
    Unknown,
}

/// Whether an exit status is among those listed as success.
pub open spec fn lists_code(ss: Seq<ExitStatusView>, code: u8) -> bool {
    exists|i: int| 0 <= i < ss.len() && #[trigger] ss[i] == ExitStatusView::Code(code)
}

/// What an exit counts as, per `SuccessExitStatus=`.
pub open spec fn outcome_of(e: Exit, svc: ServiceView) -> ProcessOutcome {
    match e {
        Exit::Code(c) => if c == 0 || lists_code(svc.success_exit_status, c as u8) {
            ProcessOutcome::ExitedSuccess
        } else {
            ProcessOutcome::ExitedNonZero
        },
        Exit::Signal(true) => ProcessOutcome::CoreDumped,
        Exit::Signal(false) => ProcessOutcome::Signaled,
        Exit::Unknown => ProcessOutcome::ExitedNonZero,
    }
}

/// Convert a wait-status into `ProcessOutcome` per `SuccessExitStatus=`.
pub fn classify_exit(e: Exit, svc: &ServiceUnit) -> (r: ProcessOutcome)
    ensures
        r == outcome_of(e, svc@),
{
    match e {
        Exit::Code(c) => {
            if c == 0 {
                return ProcessOutcome::ExitedSuccess;
            }
            let low = #[verifier::truncate] (c as u8);
            let ghost ss = svc@.success_exit_status;
            let mut i: usize = 0;
            while i < svc.success_exit_status.len()
                invariant
                    i <= svc.success_exit_status.len(),
                    ss == svc@.success_exit_status,
                    ss == service::exit_statuses_view(svc.success_exit_status@),
                    c != 0,
                    low == c as u8,
                    e == Exit::Code(c),
                    forall|j: int| 0 <= j < i ==> #[trigger] ss[j] != ExitStatusView::Code(low),
                decreases svc.success_exit_status.len() - i,
            {
                proof {
                    assert(ss[i as int] == svc.success_exit_status@[i as int]@);
                }
                if let ExitStatus::Code(n) = &svc.success_exit_status[i] {
                    if *n == low {
                        return ProcessOutcome::ExitedSuccess;
                    }
                }
                i = i + 1;
            }
            ProcessOutcome::ExitedNonZero
        },
        Exit::Signal(core) => if core {
            ProcessOutcome::CoreDumped
        } else {
            ProcessOutcome::Signaled
        },
        Exit::Unknown => ProcessOutcome::ExitedNonZero,
    }
}

// ---------------------------------------------------------------------
// Restart delay
// ---------------------------------------------------------------------

/// The delay before the first restart; infinity is taken as a day.
pub open spec fn base_delay(svc: ServiceView) -> TimeSpan {
    match svc.restart_sec {
        SdDuration::Finite(d) => d,
        SdDuration::Infinity => TimeSpan { secs: 86400, nanos: 0 },
    }
}

/// How often the delay has doubled after `n` restarts: once each, up to one
/// less than the steps, and at most twenty times.
pub open spec fn doublings(n: u32, steps: u32) -> nat {
    let most = if steps == 0 {
        0
    } else {
        steps - 1
    };
    let k = if n <= most {
        n as int
    } else {
        most
    };
    (if k <= 20 {
        k
    } else {
        20
    }) as nat
}

/// The delay after `n` restarts, in nanoseconds.
pub open spec fn delay_nanos(svc: ServiceView, n: u32) -> nat {
    let base = base_delay(svc).total();
    if svc.restart_steps == 0 || n == 0 {
        base
    } else {
        let grown = base * vstd::arithmetic::power2::pow2(doublings(n, svc.restart_steps));
        let candidate = if grown <= duration::max_nanos() {
            grown
        } else {
            duration::max_nanos()
        };
        match svc.restart_max_delay_sec {
            Some(d) => if candidate <= duration::span_or_max(d).total() {
                candidate
            } else {
                duration::span_or_max(d).total()
            },
            None => candidate,
        }
    }
}

/// Two to the power of a small number.
fn power(k: u32) -> (r: u64)
    requires
        k <= 20,
    ensures
        r == vstd::arithmetic::power2::pow2(k as nat),
        r <= 0x10_0000,
{
    let mut r: u64 = 1;
    let mut i: u32 = 0;
    proof {
        vstd::arithmetic::power2::lemma2_to64();
        vstd::arithmetic::power2::lemma2_to64_rest();
    }
    while i < k
        invariant
            i <= k <= 20,
            r == vstd::arithmetic::power2::pow2(i as nat),
            r <= 0x10_0000,
        decreases k - i,
    {
        proof {
            vstd::arithmetic::power2::lemma_pow2_unfold((i + 1) as nat);
            vstd::arithmetic::power2::lemma2_to64();
            vstd::arithmetic::power2::lemma2_to64_rest();
            if i + 1 < 20 {
                vstd::arithmetic::power2::lemma_pow2_strictly_increases((i + 1) as nat, 20);
            }
        }
        r = r * 2;
        i = i + 1;
    }
    r
}

// ---------------------------------------------------------------------
// Signals
// ---------------------------------------------------------------------

/// The signals that a service can be stopped with.
#[derive(Debug, Clone, Copy, PartialEq, Eq, Structural)]
pub enum Signal {
    Term,
    Kill,
    Int,
    Hup,
    Usr1,
    Usr2,
    Quit,
    Abrt,
}

/// The signal of a name.
pub open spec fn signal_of(s: Seq<char>) -> Option<Signal> {
    if s == "SIGTERM"@ {
        Some(Signal::Term)
    } else if s == "SIGKILL"@ {
        Some(Signal::Kill)
    } else if s == "SIGINT"@ {
        Some(Signal::Int)
    } else if s == "SIGHUP"@ {
        Some(Signal::Hup)
    } else if s == "SIGUSR1"@ {
        Some(Signal::Usr1)
    } else if s == "SIGUSR2"@ {
        Some(Signal::Usr2)
    } else if s == "SIGQUIT"@ {
        Some(Signal::Quit)
    } else if s == "SIGABRT"@ {
        Some(Signal::Abrt)
    } else {
        None
    }
}

/// The signal of a name.
pub fn parse_signal(s: &str) -> (r: Option<Signal>)
    ensures
        r == signal_of(s@),
{
    if same(s, "SIGTERM") {
        Some(Signal::Term)
    } else if same(s, "SIGKILL") {
        Some(Signal::Kill)
    } else if same(s, "SIGINT") {
        Some(Signal::Int)
    } else if same(s, "SIGHUP") {
        Some(Signal::Hup)
    } else if same(s, "SIGUSR1") {
        Some(Signal::Usr1)
    } else if same(s, "SIGUSR2") {
        Some(Signal::Usr2)
    } else if same(s, "SIGQUIT") {
        Some(Signal::Quit)
    } else if same(s, "SIGABRT") {
        Some(Signal::Abrt)
    } else {
        None
    }
}

/// Where to direct a kill signal.
#[derive(Debug, Clone, Copy, PartialEq, Eq, Structural)]
pub enum Target {
    /// One process.
    Pid(i32),
    /// A process group.
    ProcessGroup(i32),
    /// Nowhere.
    Nowhere,
}

/// Where the signals of a service with this main process go.
pub open spec fn target_of(mode: KillMode, pid: i32) -> Target {
    match mode {
        KillMode::Process => Target::Pid(pid),
        KillMode::ControlGroup | KillMode::Mixed => Target::ProcessGroup(pid),
        KillMode::Nothing => Target::Nowhere,
    }
}

/// How a running main process is stopped.
#[derive(Debug, Clone, Copy, PartialEq, Eq)]
pub struct KillPlan {
    /// Where the signals go.
    pub target: Target,
    /// The first signal.
    pub signal: Signal,
    /// How long to wait for the process to end.
    pub timeout: TimeSpan,
    /// Whether `SIGKILL` follows where it has not.
    pub then_kill: bool,
}

impl KillPlan {
    /// The signal that follows the first one, given whether the process ended in
    /// time: `SIGKILL` where it did not and the plan asks for it.
    pub fn second_signal(&self, gone: bool) -> (r: Option<Signal>)
        ensures
            r == if !gone && self.then_kill {
                Some(Signal::Kill)
            } else {
                None
            },
    {
        if !gone && self.then_kill {
            Some(Signal::Kill)
        } else {
            None
        }
    }
}

/// The time limit of a directive; 90 seconds where it is not set.
pub open spec fn limit_of(d: Option<SdDuration>) -> TimeSpan {
    match d {
        Some(d) => duration::span_or_max(d),
        None => TimeSpan { secs: 90, nanos: 0 },
    }
}

fn time_limit(d: Option<SdDuration>) -> (r: TimeSpan)
    ensures
        r == limit_of(d),
{
    match d {
        Some(d) => d.as_std(),
        None => TimeSpan::from_secs(90),
    }
}

/// The time limit of every step of a start.
pub fn start_timeout(svc: &ServiceUnit) -> (r: TimeSpan)
    ensures
        r == limit_of(svc@.timeout_start_sec),
{
    time_limit(svc.timeout_start_sec)
}

// ---------------------------------------------------------------------
// The runner
// ---------------------------------------------------------------------

/// Outcome of one supervised start cycle.
#[derive(Debug)]
pub struct StartOutcome {
    /// Whether we reached `Active`.
    pub active: bool,
    /// Why not, if the start failed.
    pub error: Option<String>,
}

/// What to do next in a start.
#[derive(Debug)]
pub enum StartStep {
    /// Run this `ExecCondition` and report whether it succeeded.
    Condition(usize),
    /// Run this `ExecStartPre` and report whether it succeeded.
    Pre(usize),
    /// Run the first `ExecStart` to its end and report whether it succeeded.
    Oneshot,
    /// Run the first `ExecStart` until it exits, then report what `PIDFile=`
    /// holds.
    Fork,
    /// Start the first `ExecStart` and report its process id.
    Spawn,
    /// Start the first `ExecStart` with a notification socket, report its
    /// process id, then every message.
    SpawnNotify,
    /// Wait for the next message.
    AwaitNotify,
    /// Run this `ExecStartPost`; its result does not matter.
    Post(usize),
    /// The start is over.
    Done(StartOutcome),
}

/// A [`StartStep`] by its characters.
pub enum StepView {
    Condition(nat),
    Pre(nat),
    Oneshot,
    Fork,
    Spawn,
    SpawnNotify,
    AwaitNotify,
    Post(nat),
    Done { active: bool, error: Option<Seq<char>> },
}

impl View for StartStep {
    type V = StepView;

    open spec fn view(&self) -> StepView {
        match *self {
            StartStep::Condition(i) => StepView::Condition(i as nat),
            StartStep::Pre(i) => StepView::Pre(i as nat),
            StartStep::Oneshot => StepView::Oneshot,
            StartStep::Fork => StepView::Fork,
            StartStep::Spawn => StepView::Spawn,
            StartStep::SpawnNotify => StepView::SpawnNotify,
            StartStep::AwaitNotify => StepView::AwaitNotify,
            StartStep::Post(i) => StepView::Post(i as nat),
            StartStep::Done(o) => StepView::Done {
                active: o.active,
                error: text::opt_text(o.error),
            },
        }
    }
}

/// Supervises one `.service` unit.
pub struct ServiceRunner {
    /// Unit name.
    pub unit: UnitName,
    /// Parsed service definition.
    pub svc: ServiceUnit,
    /// Last observed pid.
    pub main_pid: Option<i32>,
    /// Current top-level state.
    pub state: ActiveState,
    /// Detailed sub-state.
    pub sub: String,
    /// Last status message reported via `sd_notify(STATUS=)`.
    pub status: Option<String>,
    /// Most recent restart count (for backoff).
    pub restarts: u32,
    /// Last process outcome (used for `Restart=` decisions).
    pub last_outcome: Option<ProcessOutcome>,
}

/// What changes of a [`ServiceRunner`] while its unit runs.
#[verifier::ext_equal]
pub struct RunView {
    pub main_pid: Option<i32>,
    pub state: ActiveState,
    pub sub: Seq<char>,
    pub status: Option<Seq<char>>,
    pub restarts: u32,
    pub last_outcome: Option<ProcessOutcome>,
}

/// A runner before its first start.
pub open spec fn idle() -> RunView {
    RunView {
        main_pid: None,
        state: ActiveState::Inactive,
        sub: "dead"@,
        status: None,
        restarts: 0,
        last_outcome: None,
    }
}

/// A run in another state.
pub open spec fn in_state(r: RunView, state: ActiveState, sub: Seq<char>) -> RunView {
    RunView { state, sub, ..r }
}

/// Whether a command's failure is ignored.
pub open spec fn ignores_failure(c: ExecView) -> bool {
    c.flags & ExecFlags::IGNORE_FAILURE == ExecFlags::IGNORE_FAILURE
}

/// The step of a start that runs the main command, and the run at it.
pub open spec fn main_step(svc: ServiceView, r: RunView) -> (RunView, StepView) {
    let s = in_state(r, r.state, "start"@);
    if svc.exec_start.len() == 0 {
        if svc.service_type is Oneshot {
            (
                in_state(
                    r,
                    if svc.remain_after_exit {
                        ActiveState::Active
                    } else {
                        ActiveState::Inactive
                    },
                    "dead"@,
                ),
                StepView::Done { active: svc.remain_after_exit, error: None },
            )
        } else {
            (s, StepView::Done { active: false, error: Some("no ExecStart"@) })
        }
    } else {
        match svc.service_type {
            ServiceType::Oneshot => (s, StepView::Oneshot),
            ServiceType::Forking => (s, StepView::Fork),
            ServiceType::Notify | ServiceType::NotifyReload => (s, StepView::SpawnNotify),
            ServiceType::Simple | ServiceType::Exec | ServiceType::Idle | ServiceType::Dbus => (
                s,
                StepView::Spawn,
            ),
        }
    }
}

/// The step of a start at an `ExecStartPre`, or behind the last.
pub open spec fn pre_step(svc: ServiceView, r: RunView, i: int) -> (RunView, StepView) {
    if i < svc.exec_start_pre.len() {
        (r, StepView::Pre(i as nat))
    } else {
        main_step(svc, r)
    }
}

/// The step of a start at an `ExecCondition`, or behind the last.
pub open spec fn condition_step(svc: ServiceView, r: RunView, i: int) -> (RunView, StepView) {
    if i < svc.exec_condition.len() {
        (r, StepView::Condition(i as nat))
    } else {
        pre_step(svc, r, 0)
    }
}

/// The step at an `ExecStartPost`, or behind the last: the start is over.
pub open spec fn post_step(svc: ServiceView, r: RunView, i: int) -> StepView {
    if i < svc.exec_start_post.len() {
        StepView::Post(i as nat)
    } else {
        StepView::Done { active: r.state is Active, error: None }
    }
}

/// The beginning of a start.
pub open spec fn started(svc: ServiceView, r: RunView) -> (RunView, StepView) {
    condition_step(svc, in_state(r, ActiveState::Activating, "start-pre"@), 0)
}

/// After an `ExecCondition`: a failure skips the unit silently.
pub open spec fn after_condition(svc: ServiceView, r: RunView, i: int, success: bool) -> (
    RunView,
    StepView,
) {
    if success || ignores_failure(svc.exec_condition[i]) {
        condition_step(svc, r, i + 1)
    } else {
        (
            in_state(r, ActiveState::Inactive, "dead"@),
            StepView::Done { active: false, error: Some("ExecCondition failed"@) },
        )
    }
}

/// After an `ExecStartPre`: a failure fails the start.
pub open spec fn after_pre(svc: ServiceView, r: RunView, i: int, success: bool) -> (
    RunView,
    StepView,
) {
    if success || ignores_failure(svc.exec_start_pre[i]) {
        pre_step(svc, r, i + 1)
    } else {
        (
            in_state(r, ActiveState::Failed, "failed"@),
            StepView::Done { active: false, error: Some("ExecStartPre failed"@) },
        )
    }
}

/// After the main command of a oneshot.
pub open spec fn after_oneshot(svc: ServiceView, r: RunView, success: bool, exit: Seq<char>) -> (
    RunView,
    StepView,
) {
    if success || ignores_failure(svc.exec_start[0]) {
        let s = in_state(
            r,
            if svc.remain_after_exit {
                ActiveState::Active
            } else {
                ActiveState::Inactive
            },
            "dead"@,
        );
        (s, post_step(svc, s, 0))
    } else {
        (
            in_state(r, ActiveState::Failed, "failed"@),
            StepView::Done { active: false, error: Some("oneshot exit "@ + exit) },
        )
    }
}

/// A run whose service is up.
pub open spec fn running(svc: ServiceView, r: RunView) -> (RunView, StepView) {
    let s = in_state(r, ActiveState::Active, "running"@);
    (s, post_step(svc, s, 0))
}

/// After the main command was started: it is up.
pub open spec fn after_spawn(svc: ServiceView, r: RunView, pid: Option<i32>) -> (
    RunView,
    StepView,
) {
    running(
        svc,
        RunView {
            main_pid: if pid is Some {
                pid
            } else {
                r.main_pid
            },
            ..r
        },
    )
}

/// After the main command has forked and left: its `PIDFile=` gives the main
/// process, without which a service that may not be guessed has failed.
pub open spec fn after_fork(svc: ServiceView, r: RunView, pid: Option<i32>) -> (RunView, StepView) {
    match (svc.pid_file, pid) {
        (None, _) => running(svc, r),
        (Some(_), Some(p)) => running(svc, RunView { main_pid: Some(p), ..r }),
        (Some(_), None) => if svc.guess_main_pid {
            running(svc, r)
        } else {
            (
                in_state(r, ActiveState::Failed, "failed"@),
                StepView::Done {
                    active: false,
                    error: Some("PIDFile not produced in TimeoutStartSec"@),
                },
            )
        },
    }
}

/// A run after a notification message.
pub open spec fn noted(r: RunView, m: NotifyView) -> RunView {
    RunView {
        main_pid: if m.main_pid is Some {
            m.main_pid
        } else {
            r.main_pid
        },
        status: if m.status is Some {
            m.status
        } else {
            r.status
        },
        ..r
    }
}

/// After a notification message: it is up when it says so.
pub open spec fn after_notify(svc: ServiceView, r: RunView, m: NotifyView) -> (RunView, StepView) {
    let s = noted(r, m);
    if m.ready {
        running(svc, s)
    } else {
        (s, StepView::AwaitNotify)
    }
}

/// How a main process is stopped: none where there is none.
pub open spec fn kill_plan(svc: ServiceView, pid: Option<i32>) -> Option<KillPlan> {
    match pid {
        None => None,
        Some(p) => Some(
            KillPlan {
                target: target_of(svc.kill_mode, p),
                signal: match svc.kill_signal {
                    Some(s) => match signal_of(s) {
                        Some(sig) => sig,
                        None => Signal::Term,
                    },
                    None => Signal::Term,
                },
                timeout: limit_of(svc.timeout_stop_sec),
                then_kill: svc.send_sigkill,
            },
        ),
    }
}

/// What follows the exit of a supervised process.
#[derive(Debug, Clone, Copy, PartialEq, Eq)]
pub struct ExitDecision {
    /// What the exit counts as.
    pub outcome: ProcessOutcome,
    /// How long to wait before a restart; `None` where there is none.
    pub restart_after: Option<TimeSpan>,
}

/// A run after the exit of its process: where `Restart=` does not apply it is
/// over.
pub open spec fn exited(svc: ServiceView, r: RunView, e: Exit) -> RunView {
    let o = outcome_of(e, svc);
    let s = RunView { last_outcome: Some(o), ..r };
    if service::restarts(svc.restart, o) {
        s
    } else {
        in_state(
            s,
            if o is ExitedSuccess {
                ActiveState::Inactive
            } else {
                ActiveState::Failed
            },
            "dead"@,
        )
    }
}

/// A [`ServiceRunner`] by its characters.
pub struct RunnerView {
    pub unit: NameView,
    pub svc: ServiceView,
    pub run: RunView,
}

impl View for ServiceRunner {
    type V = RunnerView;

    open spec fn view(&self) -> RunnerView {
        RunnerView { unit: self.unit@, svc: self.svc@, run: self.run() }
    }
}

impl ServiceRunner {
    /// What changes while the unit runs.
    pub open spec fn run(&self) -> RunView {
        RunView {
            main_pid: self.main_pid,
            state: self.state,
            sub: self.sub@,
            status: text::opt_text(self.status),
            restarts: self.restarts,
            last_outcome: self.last_outcome,
        }
    }

    /// New, idle runner.
    pub fn new(unit: UnitName, svc: ServiceUnit) -> (r: Self)
        ensures
            r.unit == unit,
            r.svc == svc,
            r.run() == idle(),
    {
        ServiceRunner {
            unit,
            svc,
            main_pid: None,
            state: ActiveState::Inactive,
            sub: "dead".to_owned(),
            status: None,
            restarts: 0,
            last_outcome: None,
        }
    }

    fn set(&mut self, state: ActiveState, sub: &str)
        ensures
            final(self).run() == in_state(old(self).run(), state, sub@),
            final(self).svc == old(self).svc,
            final(self).unit == old(self).unit,
    {
        self.state = state;
        self.sub = sub.to_owned();
    }

    fn at_main(&mut self) -> (r: StartStep)
        ensures
            (final(self).run(), r@) == main_step(old(self).svc@, old(self).run()),
            final(self).svc == old(self).svc,
            final(self).unit == old(self).unit,
    {
        if self.svc.exec_start.len() == 0 {
            if self.svc.service_type == ServiceType::Oneshot {
                let active = self.svc.remain_after_exit;
                self.set(
                    if active {
                        ActiveState::Active
                    } else {
                        ActiveState::Inactive
                    },
                    "dead",
                );
                return StartStep::Done(StartOutcome { active, error: None });
            }
            self.set(self.state, "start");
            return StartStep::Done(
                StartOutcome { active: false, error: Some("no ExecStart".to_owned()) },
            );
        }
        self.set(self.state, "start");
        match self.svc.service_type {
            ServiceType::Oneshot => StartStep::Oneshot,
            ServiceType::Forking => StartStep::Fork,
            ServiceType::Notify | ServiceType::NotifyReload => StartStep::SpawnNotify,
            ServiceType::Simple | ServiceType::Exec | ServiceType::Idle | ServiceType::Dbus =>
                StartStep::Spawn,
        }
    }

    fn at_pre(&mut self, i: usize) -> (r: StartStep)
        ensures
            (final(self).run(), r@) == pre_step(old(self).svc@, old(self).run(), i as int),
            final(self).svc == old(self).svc,
            final(self).unit == old(self).unit,
    {
        if i < self.svc.exec_start_pre.len() {
            StartStep::Pre(i)
        } else {
            self.at_main()
        }
    }

    fn at_condition(&mut self, i: usize) -> (r: StartStep)
        ensures
            (final(self).run(), r@) == condition_step(old(self).svc@, old(self).run(), i as int),
            final(self).svc == old(self).svc,
            final(self).unit == old(self).unit,
    {
        if i < self.svc.exec_condition.len() {
            StartStep::Condition(i)
        } else {
            self.at_pre(0)
        }
    }

    fn at_post(&self, i: usize) -> (r: StartStep)
        ensures
            r@ == post_step(self.svc@, self.run(), i as int),
    {
        if i < self.svc.exec_start_post.len() {
            StartStep::Post(i)
        } else {
            StartStep::Done(StartOutcome { active: self.state == ActiveState::Active, error: None })
        }
    }

    fn up(&mut self) -> (r: StartStep)
        ensures
            (final(self).run(), r@) == running(old(self).svc@, old(self).run()),
            final(self).svc == old(self).svc,
            final(self).unit == old(self).unit,
    {
        self.set(ActiveState::Active, "running");
        self.at_post(0)
    }

    fn failed(&mut self, error: &str) -> (r: StartStep)
        ensures
            final(self).run() == in_state(old(self).run(), ActiveState::Failed, "failed"@),
            r@ == (StepView::Done { active: false, error: Some(error@) }),
            final(self).svc == old(self).svc,
            final(self).unit == old(self).unit,
    {
        self.set(ActiveState::Failed, "failed");
        StartStep::Done(StartOutcome { active: false, error: Some(error.to_owned()) })
    }

    /// Begins the start sequence.
    pub fn start(&mut self) -> (r: StartStep)
        ensures
            (final(self).run(), r@) == started(old(self).svc@, old(self).run()),
            final(self).svc == old(self).svc,
            final(self).unit == old(self).unit,
    {
        self.set(ActiveState::Activating, "start-pre");
        self.at_condition(0)
    }

    /// Reports the result of an `ExecCondition`.
    pub fn condition_done(&mut self, i: usize, success: bool) -> (r: StartStep)
        requires
            i < old(self).svc@.exec_condition.len(),
        ensures
            (final(self).run(), r@) == after_condition(
                old(self).svc@,
                old(self).run(),
                i as int,
                success,
            ),
            final(self).svc == old(self).svc,
            final(self).unit == old(self).unit,
    {
        let n: usize = self.svc.exec_condition.len();
        assert(i < n);
        if success || self.svc.exec_condition[i].flags.contains(ExecFlags::IGNORE_FAILURE) {
            self.at_condition(i + 1)
        } else {
            self.set(ActiveState::Inactive, "dead");
            StartStep::Done(
                StartOutcome { active: false, error: Some("ExecCondition failed".to_owned()) },
            )
        }
    }

    /// Reports the result of an `ExecStartPre`.
    pub fn pre_done(&mut self, i: usize, success: bool) -> (r: StartStep)
        requires
            i < old(self).svc@.exec_start_pre.len(),
        ensures
            (final(self).run(), r@) == after_pre(
                old(self).svc@,
                old(self).run(),
                i as int,
                success,
            ),
            final(self).svc == old(self).svc,
            final(self).unit == old(self).unit,
    {
        let n: usize = self.svc.exec_start_pre.len();
        assert(i < n);
        if success || self.svc.exec_start_pre[i].flags.contains(ExecFlags::IGNORE_FAILURE) {
            self.at_pre(i + 1)
        } else {
            self.failed("ExecStartPre failed")
        }
    }

    /// Reports the result of a oneshot's main command, and its exit status in
    /// words.
    pub fn oneshot_done(&mut self, success: bool, exit: &str) -> (r: StartStep)
        requires
            old(self).svc@.exec_start.len() > 0,
        ensures
            (final(self).run(), r@) == after_oneshot(
                old(self).svc@,
                old(self).run(),
                success,
                exit@,
            ),
            final(self).svc == old(self).svc,
            final(self).unit == old(self).unit,
    {
        if success || self.svc.exec_start[0].flags.contains(ExecFlags::IGNORE_FAILURE) {
            self.set(
                if self.svc.remain_after_exit {
                    ActiveState::Active
                } else {
                    ActiveState::Inactive
                },
                "dead",
            );
            self.at_post(0)
        } else {
            let mut error = "oneshot exit ".to_owned();
            error.append(exit);
            self.failed(error.as_str())
        }
    }

    /// Reports that the main command was started.
    pub fn spawned(&mut self, pid: Option<i32>) -> (r: StartStep)
        ensures
            (final(self).run(), r@) == after_spawn(old(self).svc@, old(self).run(), pid),
            final(self).svc == old(self).svc,
            final(self).unit == old(self).unit,
    {
        if pid.is_some() {
            self.main_pid = pid;
        }
        self.up()
    }

    /// Reports that a forking main command has left, and what its `PIDFile=`
    /// holds.
    pub fn forked(&mut self, pid: Option<i32>) -> (r: StartStep)
        ensures
            (final(self).run(), r@) == after_fork(old(self).svc@, old(self).run(), pid),
            final(self).svc == old(self).svc,
            final(self).unit == old(self).unit,
    {
        if self.svc.pid_file.is_some() {
            if pid.is_some() {
                self.main_pid = pid;
            } else if !self.svc.guess_main_pid {
                return self.failed("PIDFile not produced in TimeoutStartSec");
            }
        }
        self.up()
    }

    /// Reports that a notifying main command was started.
    pub fn notify_spawned(&mut self, pid: Option<i32>) -> (r: StartStep)
        ensures
            final(self).run() == (RunView {
                main_pid: if pid is Some {
                    pid
                } else {
                    old(self).run().main_pid
                },
                ..old(self).run()
            }),
            r@ == StepView::AwaitNotify,
            final(self).svc == old(self).svc,
            final(self).unit == old(self).unit,
    {
        if pid.is_some() {
            self.main_pid = pid;
        }
        StartStep::AwaitNotify
    }

    /// Reports a notification message.
    pub fn notified(&mut self, m: NotifyMessage) -> (r: StartStep)
        ensures
            (final(self).run(), r@) == after_notify(old(self).svc@, old(self).run(), m@),
            final(self).svc == old(self).svc,
            final(self).unit == old(self).unit,
    {
        if m.main_pid.is_some() {
            self.main_pid = m.main_pid;
        }
        if m.status.is_some() {
            self.status = m.status;
        }
        if m.ready {
            self.up()
        } else {
            StartStep::AwaitNotify
        }
    }

    /// Reports that no message came in time. The run stays as it is.
    pub fn notify_timed_out(&self) -> (r: StartStep)
        ensures
            r@ == (StepView::Done {
                active: false,
                error: Some("Timed out waiting for READY=1"@),
            }),
    {
        StartStep::Done(
            StartOutcome { active: false, error: Some("Timed out waiting for READY=1".to_owned()) },
        )
    }

    /// Reports that an `ExecStartPost` is over.
    pub fn post_done(&self, i: usize) -> (r: StartStep)
        requires
            i < self.svc@.exec_start_post.len(),
        ensures
            r@ == post_step(self.svc@, self.run(), i + 1),
    {
        let n: usize = self.svc.exec_start_post.len();
        assert(i < n);
        self.at_post(i + 1)
    }

    /// Begins to stop the unit: `ExecStop` runs in this state.
    pub fn begin_stop(&mut self)
        ensures
            final(self).run() == in_state(old(self).run(), ActiveState::Deactivating, "stop"@),
            final(self).svc == old(self).svc,
            final(self).unit == old(self).unit,
    {
        self.set(ActiveState::Deactivating, "stop");
    }

    /// How the main process is stopped, once `ExecStop` has run.
    pub fn stop_signal(&self) -> (r: Option<KillPlan>)
        ensures
            r == kill_plan(self.svc@, self.run().main_pid),
    {
        match self.main_pid {
            None => None,
            Some(pid) => {
                let signal = match &self.svc.kill_signal {
                    Some(s) => match parse_signal(s.as_str()) {
                        Some(sig) => sig,
                        None => Signal::Term,
                    },
                    None => Signal::Term,
                };
                let target = match self.svc.kill_mode {
                    KillMode::Process => Target::Pid(pid),
                    KillMode::ControlGroup | KillMode::Mixed => Target::ProcessGroup(pid),
                    KillMode::Nothing => Target::Nowhere,
                };
                Some(
                    KillPlan {
                        target,
                        signal,
                        timeout: time_limit(self.svc.timeout_stop_sec),
                        then_kill: self.svc.send_sigkill,
                    },
                )
            },
        }
    }

    /// The unit is stopped, once `ExecStopPost` has run.
    pub fn finish_stop(&mut self)
        ensures
            final(self).run() == (RunView {
                main_pid: None,
                ..in_state(old(self).run(), ActiveState::Inactive, "dead"@)
            }),
            final(self).svc == old(self).svc,
            final(self).unit == old(self).unit,
    {
        self.set(ActiveState::Inactive, "dead");
        self.main_pid = None;
    }

    /// Begins to reload the unit: `ExecReload` runs in this sub-state.
    pub fn begin_reload(&mut self)
        ensures
            final(self).run() == in_state(old(self).run(), old(self).run().state, "reload"@),
            final(self).svc == old(self).svc,
            final(self).unit == old(self).unit,
    {
        self.set(self.state, "reload");
    }

    /// The unit is reloaded.
    pub fn finish_reload(&mut self)
        ensures
            final(self).run() == in_state(old(self).run(), old(self).run().state, "running"@),
            final(self).svc == old(self).svc,
            final(self).unit == old(self).unit,
    {
        self.set(self.state, "running");
    }

    /// Compute the next restart delay in `RestartSec` *exponential* backoff.
    pub fn next_restart_delay(&self) -> (r: TimeSpan)
        ensures
            r.total() == delay_nanos(self.svc@, self.run().restarts),
    {
        let base = match self.svc.restart_sec {
            SdDuration::Finite(d) => d,
            SdDuration::Infinity => TimeSpan::from_secs(86400),
        };
        let n = self.restarts;
        let steps = self.svc.restart_steps;
        if steps == 0 || n == 0 {
            return base;
        }
        let most: u32 = steps - 1;
        let k: u32 = if n <= most { n } else { most };
        let k: u32 = if k <= 20 { k } else { 20 };
        let mult = power(k);
        let total = base.as_nanos();
        let ghost t = total as nat;
        proof {
            assert(t * mult <= 0x1_0000_0000_0000_0000 * 2_000_000_000 * 0x10_0000)
                by (nonlinear_arith)
                requires
                    t <= 0x1_0000_0000_0000_0000 * 2_000_000_000,
                    mult <= 0x10_0000,
            ;
        }
        let grown: u128 = total * mult as u128;
        let longest = TimeSpan::max().as_nanos();
        let candidate = if grown <= longest { grown } else { longest };
        match self.svc.restart_max_delay_sec {
            Some(d) => {
                let cap = d.as_std();
                if candidate <= cap.as_nanos() {
                    TimeSpan::from_nanos(candidate)
                } else {
                    cap
                }
            },
            None => TimeSpan::from_nanos(candidate),
        }
    }

    /// Apply `Restart=` policy after the supervised child exits.
    pub fn handle_exit(&mut self, e: Exit) -> (r: ExitDecision)
        ensures
            final(self).run() == exited(old(self).svc@, old(self).run(), e),
            r.outcome == outcome_of(e, old(self).svc@),
            match r.restart_after {
                Some(d) => service::restarts(old(self).svc@.restart, r.outcome) && d.total()
                    == delay_nanos(old(self).svc@, old(self).run().restarts),
                None => !service::restarts(old(self).svc@.restart, r.outcome),
            },
            final(self).svc == old(self).svc,
            final(self).unit == old(self).unit,
    {
        let outcome = classify_exit(e, &self.svc);
        self.last_outcome = Some(outcome);
        if !self.svc.restart.should_restart(outcome) {
            self.set(
                if outcome == ProcessOutcome::ExitedSuccess {
                    ActiveState::Inactive
                } else {
                    ActiveState::Failed
                },
                "dead",
            );
            return ExitDecision { outcome, restart_after: None };
        }
        ExitDecision { outcome, restart_after: Some(self.next_restart_delay()) }
    }

    /// Counts a restart, once its delay is over.
    pub fn count_restart(&mut self)
        requires
            old(self).restarts < u32::MAX,
        ensures
            final(self).run() == (RunView {
                restarts: (old(self).run().restarts + 1) as u32,
                ..old(self).run()
            }),
            final(self).svc == old(self).svc,
            final(self).unit == old(self).unit,
    {
        self.restarts = self.restarts + 1;
    }
}

// ---------------------------------------------------------------------
// Supervision
// ---------------------------------------------------------------------

/// How the exit of a service's main process is noticed.
#[derive(Debug, Clone, Copy, PartialEq, Eq, Structural)]
pub enum Watch {
    /// The child is waited for; without a handle, its process id is polled.
    Child,
    /// The process id is polled.
    Pid,
    /// There is nothing to watch.
    Nothing,
}

/// How the exit of the main process of a service is noticed. A oneshot is over
/// when its start is; a forking service is not a child.
pub open spec fn watch_of(t: ServiceType) -> Watch {
    match t {
        ServiceType::Forking => Watch::Pid,
        ServiceType::Oneshot | ServiceType::Dbus => Watch::Nothing,
        ServiceType::Simple | ServiceType::Exec | ServiceType::Idle | ServiceType::Notify
        | ServiceType::NotifyReload => Watch::Child,
    }
}

/// How the exit of the main process of a service is noticed.
pub fn wait_for_exit(t: ServiceType) -> (r: Watch)
    ensures
        r == watch_of(t),
{
    match t {
        ServiceType::Forking => Watch::Pid,
        ServiceType::Oneshot | ServiceType::Dbus => Watch::Nothing,
        ServiceType::Simple | ServiceType::Exec | ServiceType::Idle | ServiceType::Notify
        | ServiceType::NotifyReload => Watch::Child,
    }
}

/// Whether a service that was started gets a supervisor: it is active, and its
/// type leaves something to watch.
pub fn needs_supervisor(active: ActiveState, t: ServiceType) -> (r: bool)
    ensures
        r == (active is Active && !(watch_of(t) is Nothing)),
{
    active == ActiveState::Active && wait_for_exit(t) != Watch::Nothing
}

/// What was seen of the end of a supervised process.
#[derive(Debug, Clone, Copy, PartialEq, Eq, Structural)]
pub enum ExitObservation {
    /// It ended well, or disappeared.
    Clean,
    /// It ended badly.
    Failed,
    /// There was nothing to watch.
    NoChild,
}

/// The state that the end of a supervised process leads to, where it is not
/// being stopped on purpose: that sets the final state itself.
pub open spec fn state_after(o: ExitObservation, stopping: bool) -> Option<
    (ActiveState, Seq<char>),
> {
    if stopping {
        None
    } else {
        match o {
            ExitObservation::Clean => Some((ActiveState::Inactive, "dead"@)),
            ExitObservation::Failed => Some((ActiveState::Failed, "failed"@)),
            ExitObservation::NoChild => None,
        }
    }
}

/// The state that the end of a supervised process leads to.
pub fn supervise(o: ExitObservation, stopping: bool) -> (r: Option<(ActiveState, &'static str)>)
    ensures
        match r {
            Some((a, s)) => state_after(o, stopping) == Some((a, s@)),
            None => state_after(o, stopping) is None,
        },
{
    if stopping {
        return None;
    }
    match o {
        ExitObservation::Clean => Some((ActiveState::Inactive, "dead")),
        ExitObservation::Failed => Some((ActiveState::Failed, "failed")),
        ExitObservation::NoChild => None,
    }
}

impl ServiceRunner {
    /// The supervised process has ended: the run takes the state that follows,
    /// and has no main process any more.
    pub fn observed_exit(&mut self, o: ExitObservation, stopping: bool) -> (r: bool)
        ensures
            r == (state_after(o, stopping) is Some),
            final(self).run() == match state_after(o, stopping) {
                Some((a, s)) => RunView { main_pid: None, ..in_state(old(self).run(), a, s) },
                None => old(self).run(),
            },
            final(self).svc == old(self).svc,
            final(self).unit == old(self).unit,
    {
        match supervise(o, stopping) {
            Some((a, s)) => {
                self.set(a, s);
                self.main_pid = None;
                true
            },
            None => false,
        }
    }
}

// ---------------------------------------------------------------------
// Laws
// ---------------------------------------------------------------------

/// Once restarts have begun, the delay never shrinks from one to the next, and
/// never exceeds `RestartMaxDelaySec=`.
pub proof fn restart_delay_grows_up_to_its_cap(svc: ServiceView, m: u32, n: u32)
    requires
        1 <= m <= n,
        svc.restart_steps > 0,
    ensures
        delay_nanos(svc, m) <= delay_nanos(svc, n),
        svc.restart_max_delay_sec is Some ==> delay_nanos(svc, n) <= duration::span_or_max(
            svc.restart_max_delay_sec->Some_0,
        ).total(),
{
    let a = doublings(m, svc.restart_steps);
    let b = doublings(n, svc.restart_steps);
    let base = base_delay(svc).total();
    if a < b {
        vstd::arithmetic::power2::lemma_pow2_strictly_increases(a, b);
    }
    let x = vstd::arithmetic::power2::pow2(a);
    let y = vstd::arithmetic::power2::pow2(b);
    assert(base * x <= base * y) by (nonlinear_arith)
        requires
            x <= y,
    ;
}

/// Whether a step that ends a start says of the unit what its state says, and
/// calls no failed start active.
pub open spec fn agrees(p: (RunView, StepView)) -> bool {
    match p.1 {
        StepView::Done { active, error } => active == (p.0.state is Active) && (error is Some
            ==> !active),
        _ => true,
    }
}

/// However a start goes, its outcome is active just where the unit is, and an
/// error never leaves the unit active.
pub proof fn outcome_agrees_with_state(
    svc: ServiceView,
    r: RunView,
    i: int,
    success: bool,
    exit: Seq<char>,
    pid: Option<i32>,
    m: NotifyView,
)
    requires
        r.state is Activating,
    ensures
        agrees(started(svc, r)),
        agrees(after_condition(svc, r, i, success)),
        agrees(after_pre(svc, r, i, success)),
        agrees(after_oneshot(svc, r, success, exit)),
        agrees(after_spawn(svc, r, pid)),
        agrees(after_fork(svc, r, pid)),
        agrees(after_notify(svc, r, m)),
{
}

} // verus!
