//! What the life of a service looks like from outside.
//!
//! The steps of a start come in their order, each type of service is up when it
//! says it is, and what follows an exit is what `Restart=` asks for.

use crate::runtime::notify::NotifyView;
use crate::runtime::service;
use crate::runtime::service::{Exit, ExitObservation, RunView, Signal, StepView, Target};
use crate::unit::duration::SdDuration;
use crate::unit::exec::{ExecFlags, ExecView};
use crate::unit::service::{ExitStatusView, ProcessOutcome, Restart, ServiceType, ServiceView};
use vstd::prelude::*;

verus! {

// ---------------------------------------------------------------------
// The order of a start
// ---------------------------------------------------------------------

/// How many commands a start runs before the main one.
pub open spec fn preludes(svc: ServiceView) -> nat {
    svc.exec_condition.len() + svc.exec_start_pre.len()
}

/// The place of a step in the sequence of a start: the conditions, the commands
/// before the main one, the main one, the commands behind it, the end.
pub open spec fn place(svc: ServiceView, s: StepView) -> nat {
    match s {
        StepView::Condition(i) => i,
        StepView::Pre(i) => svc.exec_condition.len() + i,
        StepView::Oneshot | StepView::Fork | StepView::Spawn | StepView::SpawnNotify
        | StepView::AwaitNotify => preludes(svc),
        StepView::Post(i) => preludes(svc) + 1 + i,
        StepView::Done { .. } => preludes(svc) + 1 + svc.exec_start_post.len(),
    }
}

/// Whether a step is one that a start of the service can have.
pub open spec fn is_step_of(svc: ServiceView, s: StepView) -> bool {
    match s {
        StepView::Condition(i) => i < svc.exec_condition.len(),
        StepView::Pre(i) => i < svc.exec_start_pre.len(),
        StepView::Post(i) => i < svc.exec_start_post.len(),
        _ => true,
    }
}

/// Whether a failure of the command counts.
pub open spec fn minds_failure(c: ExecView) -> bool {
    c.flags & ExecFlags::IGNORE_FAILURE != ExecFlags::IGNORE_FAILURE
}

/// A start goes through its commands one by one: it begins with the first, and
/// as long as all goes well, each is followed by the next, the conditions before
/// the rest, the commands of `ExecStartPre=` before the main one, and those of
/// `ExecStartPost=` behind it, until the end.
pub proof fn a_start_runs_its_commands_in_order(
    svc: ServiceView,
    r: RunView,
    i: int,
    exit: Seq<char>,
    pid: Option<i32>,
    m: NotifyView,
)
    requires
        svc.exec_start.len() > 0,
    ensures
        place(svc, service::started(svc, r).1) == 0,
        is_step_of(svc, service::started(svc, r).1),
        0 <= i < svc.exec_condition.len() ==> {
            let s = service::after_condition(svc, r, i, true).1;
            place(svc, s) == i + 1 && is_step_of(svc, s)
        },
        0 <= i < svc.exec_start_pre.len() ==> {
            let s = service::after_pre(svc, r, i, true).1;
            place(svc, s) == svc.exec_condition.len() + i + 1 && is_step_of(svc, s)
        },
        ({
            let s = service::after_oneshot(svc, r, true, exit).1;
            place(svc, s) == preludes(svc) + 1 && is_step_of(svc, s)
        }),
        ({
            let s = service::after_spawn(svc, r, pid).1;
            place(svc, s) == preludes(svc) + 1 && is_step_of(svc, s)
        }),
        pid is Some ==> {
            let s = service::after_fork(svc, r, pid).1;
            place(svc, s) == preludes(svc) + 1 && is_step_of(svc, s)
        },
        m.ready ==> {
            let s = service::after_notify(svc, r, m).1;
            place(svc, s) == preludes(svc) + 1 && is_step_of(svc, s)
        },
        0 <= i < svc.exec_start_post.len() ==> {
            let s = service::post_step(svc, r, i + 1);
            place(svc, s) == preludes(svc) + 1 + i + 1 && is_step_of(svc, s)
        },
{
}

/// What a start runs as its main command depends on the type alone: a oneshot is
/// run to its end, a forking service until it leaves, one that notifies gets a
/// socket, and every other is just started.
pub proof fn the_type_says_how_the_main_command_runs(svc: ServiceView, r: RunView)
    requires
        svc.exec_start.len() > 0,
    ensures
        ({
            let s = service::main_step(svc, r).1;
            &&& s is Oneshot <==> svc.service_type is Oneshot
            &&& s is Fork <==> svc.service_type is Forking
            &&& s is SpawnNotify <==> svc.service_type is Notify || svc.service_type is NotifyReload
            &&& s is Spawn <==> svc.service_type is Simple || svc.service_type is Exec
                || svc.service_type is Idle || svc.service_type is Dbus
        }),
        service::main_step(svc, r).0.state == r.state,
{
}

// ---------------------------------------------------------------------
// Being up
// ---------------------------------------------------------------------

/// While a start is under way the unit is activating.
pub proof fn a_start_begins_activating(svc: ServiceView, r: RunView)
    requires
        svc.exec_start.len() > 0,
    ensures
        service::started(svc, r).0.state is Activating,
        service::started(svc, r).0.main_pid == r.main_pid,
        service::started(svc, r).0.restarts == r.restarts,
{
}

/// A oneshot whose main command went well is active just where it remains after
/// its exit, else inactive; the outcome of the start says the same. Where the
/// command failed, and that counts, the unit has failed.
pub proof fn a_oneshot_remains_just_where_asked(
    svc: ServiceView,
    r: RunView,
    success: bool,
    exit: Seq<char>,
)
    requires
        svc.exec_start.len() > 0,
    ensures
        ({
            let (s, step) = service::after_oneshot(svc, r, success, exit);
            &&& success || !minds_failure(svc.exec_start[0]) ==> {
                &&& s.state is Active <==> svc.remain_after_exit
                &&& s.state is Inactive <==> !svc.remain_after_exit
                &&& step matches StepView::Done { active, error } ==> active
                    == svc.remain_after_exit && error is None
            }
            &&& !success && minds_failure(svc.exec_start[0]) ==> {
                &&& s.state is Failed
                &&& step matches StepView::Done { active, error } && !active && error is Some
            }
            &&& s.main_pid == r.main_pid && s.restarts == r.restarts && s.status == r.status
        }),
{
}

/// A oneshot without a main command ends at once in the same way; every other
/// service without one cannot be started.
pub proof fn without_a_main_command_only_a_oneshot_starts(svc: ServiceView, r: RunView)
    requires
        svc.exec_start.len() == 0,
    ensures
        ({
            let (s, step) = service::main_step(svc, r);
            &&& svc.service_type is Oneshot ==> {
                &&& s.state is Active <==> svc.remain_after_exit
                &&& s.state is Inactive <==> !svc.remain_after_exit
                &&& step matches StepView::Done { active, error } && active
                    == svc.remain_after_exit && error is None
            }
            &&& !(svc.service_type is Oneshot) ==> {
                &&& s.state == r.state
                &&& step matches StepView::Done { active, error } && !active && error is Some
            }
        }),
{
}

/// A service that is just started is up, with the process that was started as
/// its main one; the commands behind the main one run in that state.
pub proof fn a_started_process_is_up(svc: ServiceView, r: RunView, pid: i32)
    ensures
        ({
            let (s, step) = service::after_spawn(svc, r, Some(pid));
            &&& s.state is Active
            &&& s.main_pid == Some(pid)
            &&& s.restarts == r.restarts
            &&& step matches StepView::Done { active, error } ==> active && error is None
        }),
        service::after_spawn(svc, r, None).0.main_pid == r.main_pid,
{
}

/// A service that notifies is up once it says so and not before. What it says of
/// its main process and its status is taken either way, and what it does not say
/// stays.
pub proof fn readiness_is_told(svc: ServiceView, r: RunView, m: NotifyView)
    ensures
        ({
            let (s, step) = service::after_notify(svc, r, m);
            &&& m.ready ==> s.state is Active && !(step is AwaitNotify)
            &&& !m.ready ==> s.state == r.state && s.sub == r.sub && step is AwaitNotify
            &&& s.main_pid == if m.main_pid is Some {
                m.main_pid
            } else {
                r.main_pid
            }
            &&& s.status == if m.status is Some {
                m.status
            } else {
                r.status
            }
            &&& s.restarts == r.restarts
        }),
{
}

/// A forking service is up once its command has left, with the process of its
/// `PIDFile=`. Only where that is asked for, has nothing and may not be guessed
/// has the start failed.
pub proof fn a_forking_service_is_up_when_its_command_left(
    svc: ServiceView,
    r: RunView,
    pid: Option<i32>,
)
    ensures
        ({
            let (s, step) = service::after_fork(svc, r, pid);
            let lost = svc.pid_file is Some && pid is None && !svc.guess_main_pid;
            &&& s.state is Failed <==> lost
            &&& s.state is Active <==> !lost
            &&& lost ==> (step matches StepView::Done { active, error } && !active && error is Some)
            &&& svc.pid_file is Some && pid is Some ==> s.main_pid == pid
            &&& svc.pid_file is None || pid is None ==> s.main_pid == r.main_pid
        }),
{
}

/// A condition that does not hold skips the unit, which is then inactive and has
/// not failed; a command before the main one that fails makes the unit fail.
/// Neither does anything where its failure does not count.
pub proof fn conditions_skip_and_preludes_fail(svc: ServiceView, r: RunView, i: int)
    ensures
        0 <= i < svc.exec_condition.len() && minds_failure(svc.exec_condition[i]) ==> {
            let (s, step) = service::after_condition(svc, r, i, false);
            s.state is Inactive && (step matches StepView::Done { active, error } && !active
                && error is Some)
        },
        0 <= i < svc.exec_start_pre.len() && minds_failure(svc.exec_start_pre[i]) ==> {
            let (s, step) = service::after_pre(svc, r, i, false);
            s.state is Failed && (step matches StepView::Done { active, error } && !active && error
                is Some)
        },
        0 <= i < svc.exec_condition.len() && !minds_failure(svc.exec_condition[i]) ==>
            service::after_condition(svc, r, i, false) == service::after_condition(svc, r, i, true),
        0 <= i < svc.exec_start_pre.len() && !minds_failure(svc.exec_start_pre[i]) ==>
            service::after_pre(svc, r, i, false) == service::after_pre(svc, r, i, true),
{
}

/// The commands behind the main one do not change whether the start succeeded.
pub proof fn postludes_keep_the_outcome(svc: ServiceView, r: RunView, i: int)
    requires
        i >= svc.exec_start_post.len(),
    ensures
        service::post_step(svc, r, i) matches StepView::Done { active, error } && active == (r.state
            is Active) && error is None,
{
}

/// What is shown of a start on its way: it prepares, it runs, or it is over, well or
/// not.
pub proof fn the_finer_state_tells_the_phase(
    svc: ServiceView,
    r: RunView,
    pid: Option<i32>,
    exit: Seq<char>,
    i: int,
)
    requires
        svc.exec_start.len() > 0,
    ensures
        svc.exec_condition.len() + svc.exec_start_pre.len() > 0 ==> service::started(
            svc,
            r,
        ).0.sub == "start-pre"@,
        service::main_step(svc, r).0.sub == "start"@,
        service::after_spawn(svc, r, pid).0.sub == "running"@,
        service::after_oneshot(svc, r, true, exit).0.sub == "dead"@,
        minds_failure(svc.exec_start[0]) ==> service::after_oneshot(svc, r, false, exit).0.sub
            == "failed"@,
        0 <= i < svc.exec_start_pre.len() && minds_failure(svc.exec_start_pre[i])
            ==> service::after_pre(svc, r, i, false).0.sub == "failed"@,
        0 <= i < svc.exec_condition.len() && minds_failure(svc.exec_condition[i])
            ==> service::after_condition(svc, r, i, false).0.sub == "dead"@,
        service::state_after(ExitObservation::Clean, false)->Some_0.1 == "dead"@,
        service::state_after(ExitObservation::Failed, false)->Some_0.1 == "failed"@,
        service::idle().state is Inactive,
        service::idle().sub == "dead"@,
        service::idle().main_pid is None,
        service::idle().restarts == 0,
{
}

// ---------------------------------------------------------------------
// Stopping
// ---------------------------------------------------------------------

/// Stopping signals the main process, or its group, as `KillMode=` says, and
/// nobody where there is no process or the mode forbids it. The limit is that of
/// `TimeoutStopSec=`, and `SIGKILL` follows just where `SendSIGKILL=` is on.
pub proof fn stopping_follows_the_kill_directives(svc: ServiceView, pid: Option<i32>)
    ensures
        service::kill_plan(svc, pid) is Some <==> pid is Some,
        pid is Some ==> {
            let p = service::kill_plan(svc, pid)->Some_0;
            &&& p.target == Target::Pid(pid->Some_0) <==> svc.kill_mode is Process
            &&& p.target == Target::ProcessGroup(pid->Some_0) <==> svc.kill_mode is ControlGroup
                || svc.kill_mode is Mixed
            &&& p.target is Nowhere <==> svc.kill_mode is Nothing
            &&& p.then_kill == svc.send_sigkill
            &&& svc.kill_signal is None ==> p.signal is Term
            &&& svc.timeout_stop_sec is None ==> p.timeout.secs == 90 && p.timeout.nanos == 0
            &&& svc.timeout_stop_sec matches Some(SdDuration::Finite(d)) ==> p.timeout == d
        },
{
}

/// The name of a signal.
pub open spec fn signal_name(s: Signal) -> Seq<char> {
    match s {
        Signal::Term => "SIGTERM"@,
        Signal::Kill => "SIGKILL"@,
        Signal::Int => "SIGINT"@,
        Signal::Hup => "SIGHUP"@,
        Signal::Usr1 => "SIGUSR1"@,
        Signal::Usr2 => "SIGUSR2"@,
        Signal::Quit => "SIGQUIT"@,
        Signal::Abrt => "SIGABRT"@,
    }
}

/// A service is stopped by the very signal that `KillSignal=` names, and by
/// `SIGTERM` where it names none that is known.
pub proof fn the_named_signal_is_sent(svc: ServiceView, pid: i32, s: Signal)
    ensures
        svc.kill_signal == Some(signal_name(s)) ==> service::kill_plan(
            svc,
            Some(pid),
        )->Some_0.signal == s,
        service::kill_plan(svc, Some(pid))->Some_0.signal == s && !(s is Term)
            ==> svc.kill_signal == Some(signal_name(s)),
{
    reveal_strlit("SIGTERM");
    reveal_strlit("SIGKILL");
    reveal_strlit("SIGINT");
    reveal_strlit("SIGHUP");
    reveal_strlit("SIGUSR1");
    reveal_strlit("SIGUSR2");
    reveal_strlit("SIGQUIT");
    reveal_strlit("SIGABRT");
    let n = signal_name(s);
    assert(n[3] == n[3] && n[4] == n[4] && n[n.len() - 1] == n[n.len() - 1]);
    assert("SIGTERM"@[3] == 'T' && "SIGKILL"@[3] == 'K' && "SIGINT"@[3] == 'I' && "SIGHUP"@[3]
        == 'H' && "SIGUSR1"@[3] == 'U' && "SIGUSR2"@[3] == 'U' && "SIGQUIT"@[3] == 'Q'
        && "SIGABRT"@[3] == 'A' && "SIGUSR1"@[6] == '1' && "SIGUSR2"@[6] == '2');
}

// ---------------------------------------------------------------------
// Exits
// ---------------------------------------------------------------------

/// An exit is a success just where the code is 0 or is listed in
/// `SuccessExitStatus=`; a signal never is, and a core dump is told from another
/// signal.
pub proof fn success_is_zero_or_listed(svc: ServiceView, c: i32, core: bool)
    ensures
        service::outcome_of(Exit::Code(c), svc) is ExitedSuccess <==> c == 0 || exists|i: int|
            0 <= i < svc.success_exit_status.len() && #[trigger] svc.success_exit_status[i]
                == ExitStatusView::Code(c as u8),
        service::outcome_of(Exit::Code(c), svc) is ExitedSuccess || service::outcome_of(
            Exit::Code(c),
            svc,
        ) is ExitedNonZero,
        service::outcome_of(Exit::Signal(core), svc) is CoreDumped <==> core,
        service::outcome_of(Exit::Signal(core), svc) is Signaled <==> !core,
        service::outcome_of(Exit::Unknown, svc) is ExitedNonZero,
{
}

/// `Restart=no` never restarts and `Restart=always` always does; `on-success`
/// and `on-failure` split the outcomes between them; the rest restart after
/// signals, after the watchdog, or after both, and never after an exit code.
pub proof fn restart_policies_mean_what_they_say(o: ProcessOutcome)
    ensures
        !crate::unit::service::restarts(Restart::No, o),
        crate::unit::service::restarts(Restart::Always, o),
        crate::unit::service::restarts(Restart::OnSuccess, o) <==> o is ExitedSuccess,
        crate::unit::service::restarts(Restart::OnFailure, o) <==> o is ExitedNonZero || o
            is Signaled || o is CoreDumped || o is Watchdog,
        crate::unit::service::restarts(Restart::OnAbnormal, o) <==> o is Signaled || o is CoreDumped
            || o is Watchdog,
        crate::unit::service::restarts(Restart::OnAbort, o) <==> o is Signaled || o is CoreDumped,
        crate::unit::service::restarts(Restart::OnWatchdog, o) <==> o is Watchdog,
{
}

/// After an exit that is not followed by a restart the unit is inactive where the
/// exit was a success, else it has failed; before a restart its state stays. The
/// outcome is kept, and the count of restarts stays.
pub proof fn an_exit_settles_the_state(svc: ServiceView, r: RunView, e: Exit)
    ensures
        ({
            let s = service::exited(svc, r, e);
            let o = service::outcome_of(e, svc);
            &&& s.last_outcome == Some(o)
            &&& s.restarts == r.restarts
            &&& s.main_pid == r.main_pid
            &&& crate::unit::service::restarts(svc.restart, o) ==> s.state == r.state
            &&& !crate::unit::service::restarts(svc.restart, o) ==> (s.state is Inactive <==> o
                is ExitedSuccess) && (s.state is Failed <==> !(o is ExitedSuccess))
        }),
{
}

/// What a supervisor makes of the end of a process: a clean one leaves the unit
/// inactive, a bad one failed, and a stop on purpose, or nothing to watch, leaves
/// it to others.
pub proof fn supervision_tells_clean_from_failed(o: ExitObservation, stopping: bool)
    ensures
        service::state_after(o, stopping) is None <==> stopping || o is NoChild,
        !stopping && o is Clean ==> service::state_after(o, stopping)->Some_0.0 is Inactive,
        !stopping && o is Failed ==> service::state_after(o, stopping)->Some_0.0 is Failed,
{
}

/// A oneshot is over when its start is, and a service on the bus is not watched;
/// a forking service is no child, and every other is.
pub proof fn children_are_waited_for(t: ServiceType)
    ensures
        service::watch_of(t) is Nothing <==> t is Oneshot || t is Dbus,
        service::watch_of(t) is Pid <==> t is Forking,
        service::watch_of(t) is Child <==> !(t is Oneshot) && !(t is Dbus) && !(t is Forking),
{
}

// ---------------------------------------------------------------------
// The delay before a restart
// ---------------------------------------------------------------------

/// The delay is `RestartSec=` before the first restart, and stays that where
/// there are no steps.
pub proof fn the_first_delay_is_restart_sec(svc: ServiceView, n: u32)
    requires
        n == 0 || svc.restart_steps == 0,
    ensures
        svc.restart_sec matches SdDuration::Finite(d) ==> service::delay_nanos(svc, n) == d.total(),
        svc.restart_sec is Infinity ==> service::delay_nanos(svc, n) == 86_400 * 1_000_000_000,
{
}

/// What the delay is before the cap of `RestartMaxDelaySec=`.
pub open spec fn uncapped(svc: ServiceView) -> ServiceView {
    ServiceView { restart_max_delay_sec: None, ..svc }
}

/// Each restart doubles the delay, as long as there are steps left and twenty
/// doublings are not reached; from there on it stays. It is as large as a span of
/// time can be where it would be larger.
pub proof fn each_restart_doubles_the_delay(svc: ServiceView, n: u32)
    requires
        svc.restart_steps > 0,
        n < u32::MAX,
        svc.restart_max_delay_sec is None,
        service::base_delay(svc).total() <= crate::unit::duration::max_nanos(),
    ensures
        ({
            let now = service::delay_nanos(svc, n);
            let next = service::delay_nanos(svc, (n + 1) as u32);
            let most = crate::unit::duration::max_nanos();
            &&& n + 1 < svc.restart_steps && n < 20 ==> next == if 2 * now <= most {
                2 * now
            } else {
                most
            }
            &&& n + 1 >= svc.restart_steps || n >= 20 ==> next == now
        }),
{
    let m = (n + 1) as u32;
    let a = service::doublings(n, svc.restart_steps);
    let b = service::doublings(m, svc.restart_steps);
    let base = service::base_delay(svc).total();
    let most = crate::unit::duration::max_nanos();
    vstd::arithmetic::power2::lemma2_to64();
    vstd::arithmetic::power2::lemma_pow2_unfold((a + 1) as nat);
    let x = vstd::arithmetic::power2::pow2(a);
    let y = vstd::arithmetic::power2::pow2(b);
    assert(base * 1 == base);
    if n + 1 < svc.restart_steps && n < 20 {
        assert(b == a + 1);
        assert(base * (2 * x) == 2 * (base * x)) by (nonlinear_arith);
        assert(y == 2 * x);
    } else {
        assert(a == b);
        if n == 0 {
            assert(svc.restart_steps == 1);
            assert(a == 0);
        }
    }
}

/// `RestartMaxDelaySec=` caps the delay from the first doubling on, and changes
/// none that is below it.
pub proof fn the_cap_only_cuts(svc: ServiceView, n: u32, d: SdDuration)
    requires
        svc.restart_steps > 0,
        n > 0,
        svc.restart_max_delay_sec == Some(d),
    ensures
        ({
            let cap = crate::unit::duration::span_or_max(d).total();
            let free = service::delay_nanos(uncapped(svc), n);
            service::delay_nanos(svc, n) == if free <= cap {
                free
            } else {
                cap
            }
        }),
{
}

} // verus!
