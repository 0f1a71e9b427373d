//! The runtime: services, timers, paths, sockets, installation, the manager.

use std::path::Path;
use systeml::civil::{weekday, Civil, DateTime};
use systeml::deps::job::{JobId, JobOutcome, JobType};
use systeml::runtime::exec::{
    build_command, child_environment, expand_vars, load_env_file, lookup_user_group,
    resolve_environment, resolve_working_dir, stream_sink, FileRead, IdSource, Sink,
};
use systeml::runtime::install::{
    config_dir, base_dir, disable, enable, enable_plan, has_install_link, link_one, locate_fragment, mask,
    unit_file_state, unmask, BaseEntry, EnableChanges, Link, LinkAction,
};
use systeml::runtime::manager::{
    add_changes, found_units, FileFacts, Manager, StartPlan, UnitEvent,
};
use systeml::runtime::notify::{parse_pid_file, pid_file_step, NotifyMessage, PidStep};
use systeml::runtime::path::{
    ensure_directories, fires, glob_any_exists, glob_place, predicate_for_watch, predicate_holds,
    register_watch, Notes, PathWatcher, Probe, TriggerLimiter,
};
use systeml::runtime::schedule::next_fire;
use systeml::runtime::service::{
    classify_exit, parse_signal, supervise, Exit, ExitObservation, KillPlan, ServiceRunner, Signal,
    StartStep, Target,
};
use systeml::runtime::socket::{bind_all, fd_of, install, listen_pid, Bind, SockType};
use systeml::runtime::state::{ActiveState, LoadState, UnitStatus};
use systeml::runtime::timer::{
    compute_next, deadline_to_sleep, fire_target, last_fire_text, next_overall, parse_last_fire,
    state_file, to_instant, Scheduled, TimerClock, Triggers,
};
use systeml::text_map::TextMap;
use systeml::unit::calendar::CalendarSpec;
use systeml::unit::duration::{SdDuration, TimeSpan};
use systeml::unit::env::EnvironmentFile;
use systeml::unit::exec::ExecCommand;
use systeml::unit::inet::InetAddr;
use systeml::unit::install::Install;
use systeml::unit::load::LoadedUnit;
use systeml::unit::name::{UnitKind, UnitName};
use systeml::unit::path_unit::{PathUnit, PathWatch};
use systeml::unit::search::{
    state_dir, systeml_state_dir, user_config_dir, user_search_paths, xdg_config_home,
};
use systeml::unit::service::{
    ExitStatus, KillMode, ProcessOutcome, Restart, ServiceType, ServiceUnit, StandardStream,
};
use systeml::unit::socket::{ListenSpec, SocketAddrSpec, SocketUnit};
use systeml::unit::spec::parse_unit_str;
use systeml::unit::timer::TimerUnit;

fn name(s: &str) -> UnitName {
    UnitName::from_str(s).unwrap()
}

fn utc(year: i32, month: u32, day: u32, hour: u32, minute: u32, second: u32) -> DateTime {
    DateTime::from_civil(Civil { year, month, day, hour, minute, second }, 0).unwrap()
}

fn service(t: ServiceType, command: &str) -> ServiceUnit {
    ServiceUnit {
        service_type: t,
        exec_start: vec![ExecCommand::parse(command).unwrap()],
        standard_output: StandardStream::Null,
        standard_error: StandardStream::Null,
        ..Default::default()
    }
}

fn loaded(n: &str, src: &str) -> LoadedUnit {
    match parse_unit_str(name(n), src, None) {
        Ok(p) => LoadedUnit { unit: p.unit, warnings: p.warnings, from_template: false },
        Err(e) => panic!("{}", e.message()),
    }
}

const HELLO: &str = "[Unit]\nDescription=Hello fixture\n\
                     [Service]\nType=simple\nExecStart=/bin/echo hi\n\
                     [Install]\nWantedBy=default.target\n";

// ---- notify

#[test]
fn parse_ready() {
    let m = NotifyMessage::parse(b"READY=1\nSTATUS=foo\nMAINPID=123\n");
    assert!(m.ready);
    assert_eq!(m.status.as_deref(), Some("foo"));
    assert_eq!(m.main_pid, Some(123));
}

#[test]
fn parse_watchdog() {
    let m = NotifyMessage::parse(b"WATCHDOG=1\n");
    assert!(m.watchdog);
}

#[test]
fn parse_unknown_key_ignored() {
    let m = NotifyMessage::parse(b"FRESH=novel\nREADY=1\n");
    assert!(m.ready);
}

#[test]
fn notify_values_and_bytes() {
    let m = NotifyMessage::parse("STATUS=gr\u{fc}n\nREADY=0\nSTOPPING=1\r\nERRNO=-2".as_bytes());
    assert_eq!(m.status.as_deref(), Some("gr\u{fc}n"));
    assert!(!m.ready);
    assert!(m.stopping);
    assert_eq!(m.errno, Some(-2));
    assert_eq!(
        NotifyMessage::parse(b"WATCHDOG_USEC=2500\nRELOADING=1\nBARRIER=1").watchdog_usec,
        Some(2500)
    );
    assert_eq!(NotifyMessage::parse(b"READY=1\n\xff"), NotifyMessage::default());
    assert_eq!(NotifyMessage::parse(b"MAINPID=x").main_pid, None);
}

// ---- PID files

#[test]
fn reads_immediate() {
    assert_eq!(pid_file_step(&Some("9999\n".to_owned()), false), PidStep::Found(9999));
}

#[test]
fn times_out() {
    assert_eq!(pid_file_step(&None, false), PidStep::Retry);
    assert_eq!(pid_file_step(&None, true), PidStep::TimedOut);
}

#[test]
fn pid_file_contents() {
    assert_eq!(parse_pid_file(" 12 \nrest"), Some(12));
    assert_eq!(parse_pid_file("0\n"), None);
    assert_eq!(parse_pid_file("-3\n"), None);
    assert_eq!(parse_pid_file(""), None);
}

// ---- the service state machine

#[test]
fn oneshot_true() {
    let mut r = ServiceRunner::new(name("t.service"), service(ServiceType::Oneshot, "/bin/true"));
    assert!(matches!(r.start(), StartStep::Oneshot));
    match r.oneshot_done(true, "0") {
        StartStep::Done(out) => assert!(out.error.is_none()),
        other => panic!("{:?}", other),
    }
    assert_eq!(r.state, ActiveState::Inactive);
}

#[test]
fn oneshot_false_fails() {
    let mut r = ServiceRunner::new(name("t.service"), service(ServiceType::Oneshot, "/bin/false"));
    assert!(matches!(r.start(), StartStep::Oneshot));
    match r.oneshot_done(false, "ExitStatus(1)") {
        StartStep::Done(out) => {
            assert_eq!(out.error.as_deref(), Some("oneshot exit ExitStatus(1)"));
        }
        other => panic!("{:?}", other),
    }
    assert_eq!(r.state, ActiveState::Failed);
}

#[test]
fn simple_starts_active() {
    let mut r = ServiceRunner::new(name("t.service"), service(ServiceType::Simple, "/bin/sleep 5"));
    assert!(matches!(r.start(), StartStep::Spawn));
    assert_eq!(r.state, ActiveState::Activating);
    match r.spawned(Some(77)) {
        StartStep::Done(out) => assert!(out.active),
        other => panic!("{:?}", other),
    }
    assert_eq!(r.state, ActiveState::Active);
    assert_eq!(r.sub, "running");
    r.begin_stop();
    assert_eq!(r.state, ActiveState::Deactivating);
    let plan = r.stop_signal().unwrap();
    assert_eq!(plan.target, Target::ProcessGroup(77));
    assert_eq!(plan.signal, Signal::Term);
    assert_eq!(plan.timeout, TimeSpan::from_secs(90));
    assert!(!plan.then_kill || r.svc.send_sigkill);
    assert_eq!(plan.second_signal(true), None);
    let hard = KillPlan { then_kill: true, ..plan };
    assert_eq!(hard.second_signal(false), Some(Signal::Kill));
    assert_eq!(hard.second_signal(true), None);
    assert_eq!(KillPlan { then_kill: false, ..plan }.second_signal(false), None);
    r.finish_stop();
    assert_eq!(r.state, ActiveState::Inactive);
    assert_eq!(r.main_pid, None);
}

#[test]
fn restart_always_decision() {
    let mut svc = service(ServiceType::Simple, "/bin/true");
    svc.restart = Restart::Always;
    svc.restart_sec = SdDuration::Finite(TimeSpan::from_millis(50));
    let mut r = ServiceRunner::new(name("rt.service"), svc);
    assert!(matches!(r.start(), StartStep::Spawn));
    assert!(matches!(r.spawned(Some(5)), StartStep::Done(_)));
    assert!(r.svc.restart.should_restart(ProcessOutcome::ExitedSuccess));
    assert!(r.svc.restart.should_restart(ProcessOutcome::ExitedNonZero));
    assert!(r.svc.restart.should_restart(ProcessOutcome::Signaled));
    let d = r.handle_exit(Exit::Code(0));
    assert_eq!(d.outcome, ProcessOutcome::ExitedSuccess);
    assert_eq!(d.restart_after, Some(TimeSpan::from_millis(50)));
}

#[test]
fn notify_ready_unblocks_active() {
    let mut r = ServiceRunner::new(name("n.service"), service(ServiceType::Notify, "/bin/true"));
    assert!(matches!(r.start(), StartStep::SpawnNotify));
    assert!(matches!(r.notify_spawned(Some(9)), StartStep::AwaitNotify));
    assert!(matches!(
        r.notified(NotifyMessage::parse(b"STATUS=soon")),
        StartStep::AwaitNotify
    ));
    assert_eq!(r.status.as_deref(), Some("soon"));
    match r.notified(NotifyMessage::parse(b"MAINPID=10\nREADY=1")) {
        StartStep::Done(out) => assert!(out.active),
        other => panic!("{:?}", other),
    }
    assert_eq!(r.main_pid, Some(10));
    match r.notify_timed_out() {
        StartStep::Done(out) => {
            assert_eq!(out.error.as_deref(), Some("Timed out waiting for READY=1"));
        }
        other => panic!("{:?}", other),
    }
}

#[test]
fn start_sequence_and_its_failures() {
    let mut svc = service(ServiceType::Exec, "/bin/main");
    svc.exec_condition = vec![ExecCommand::parse("/bin/cond").unwrap()];
    svc.exec_start_pre = vec![
        ExecCommand::parse("-/bin/pre").unwrap(),
        ExecCommand::parse("/bin/pre2").unwrap(),
    ];
    svc.exec_start_post = vec![ExecCommand::parse("/bin/post").unwrap()];
    let mut r = ServiceRunner::new(name("s.service"), svc);
    assert!(matches!(r.start(), StartStep::Condition(0)));
    assert_eq!(r.sub, "start-pre");
    assert!(matches!(r.condition_done(0, true), StartStep::Pre(0)));
    assert!(matches!(r.pre_done(0, false), StartStep::Pre(1)));
    assert!(matches!(r.pre_done(1, true), StartStep::Spawn));
    assert_eq!(r.sub, "start");
    assert!(matches!(r.spawned(None), StartStep::Post(0)));
    assert!(matches!(r.post_done(0), StartStep::Done(_)));

    assert!(matches!(r.start(), StartStep::Condition(0)));
    match r.condition_done(0, false) {
        StartStep::Done(out) => assert_eq!(out.error.as_deref(), Some("ExecCondition failed")),
        other => panic!("{:?}", other),
    }
    assert_eq!(r.state, ActiveState::Inactive);

    assert!(matches!(r.start(), StartStep::Condition(0)));
    assert!(matches!(r.condition_done(0, true), StartStep::Pre(0)));
    match r.pre_done(1, false) {
        StartStep::Done(out) => assert_eq!(out.error.as_deref(), Some("ExecStartPre failed")),
        other => panic!("{:?}", other),
    }
    assert_eq!(r.state, ActiveState::Failed);
}

#[test]
fn no_exec_start() {
    let svc = ServiceUnit { service_type: ServiceType::Simple, ..Default::default() };
    let mut r = ServiceRunner::new(name("e.service"), svc);
    match r.start() {
        StartStep::Done(out) => assert_eq!(out.error.as_deref(), Some("no ExecStart")),
        other => panic!("{:?}", other),
    }
    let svc = ServiceUnit {
        service_type: ServiceType::Oneshot,
        remain_after_exit: true,
        ..Default::default()
    };
    let mut r = ServiceRunner::new(name("e.service"), svc);
    match r.start() {
        StartStep::Done(out) => assert!(out.active && out.error.is_none()),
        other => panic!("{:?}", other),
    }
    assert_eq!(r.state, ActiveState::Active);
}

#[test]
fn forking_needs_its_pid_file() {
    let mut svc = service(ServiceType::Forking, "/bin/daemon");
    svc.pid_file = Some("/run/d.pid".to_owned());
    svc.guess_main_pid = false;
    let mut r = ServiceRunner::new(name("f.service"), svc);
    assert!(matches!(r.start(), StartStep::Fork));
    match r.forked(None) {
        StartStep::Done(out) => {
            assert_eq!(out.error.as_deref(), Some("PIDFile not produced in TimeoutStartSec"));
        }
        other => panic!("{:?}", other),
    }
    assert_eq!(r.state, ActiveState::Failed);
    assert!(matches!(r.start(), StartStep::Fork));
    assert!(matches!(r.forked(Some(321)), StartStep::Done(_)));
    assert_eq!(r.main_pid, Some(321));
    assert_eq!(r.state, ActiveState::Active);
}

#[test]
fn restart_backoff() {
    let mut svc = service(ServiceType::Simple, "/bin/true");
    svc.restart = Restart::OnFailure;
    svc.restart_sec = SdDuration::Finite(TimeSpan::from_secs(1));
    svc.restart_steps = 4;
    svc.restart_max_delay_sec = Some(SdDuration::Finite(TimeSpan::from_secs(5)));
    let mut r = ServiceRunner::new(name("b.service"), svc);
    let mut seen = Vec::new();
    for _ in 0..5 {
        seen.push(r.next_restart_delay().as_nanos() / 1_000_000_000);
        r.count_restart();
    }
    assert_eq!(seen, vec![1, 2, 4, 5, 5]);
    r.svc.restart_max_delay_sec = None;
    assert_eq!(r.next_restart_delay(), TimeSpan::from_secs(8));
    r.svc.restart_sec = SdDuration::Infinity;
    r.restarts = 0;
    assert_eq!(r.next_restart_delay(), TimeSpan::from_secs(86400));
}

#[test]
fn exits_are_classified() {
    let mut svc = service(ServiceType::Simple, "/bin/true");
    svc.success_exit_status = vec![ExitStatus::Code(42), ExitStatus::Signal("SIGUSR1".to_owned())];
    assert_eq!(classify_exit(Exit::Code(0), &svc), ProcessOutcome::ExitedSuccess);
    assert_eq!(classify_exit(Exit::Code(42), &svc), ProcessOutcome::ExitedSuccess);
    assert_eq!(classify_exit(Exit::Code(1), &svc), ProcessOutcome::ExitedNonZero);
    assert_eq!(classify_exit(Exit::Signal(true), &svc), ProcessOutcome::CoreDumped);
    assert_eq!(classify_exit(Exit::Signal(false), &svc), ProcessOutcome::Signaled);
    assert_eq!(classify_exit(Exit::Unknown, &svc), ProcessOutcome::ExitedNonZero);
    let mut r = ServiceRunner::new(name("c.service"), svc);
    let d = r.handle_exit(Exit::Code(7));
    assert_eq!(d.restart_after, None);
    assert_eq!(r.state, ActiveState::Failed);
    assert_eq!(r.last_outcome, Some(ProcessOutcome::ExitedNonZero));
}

#[test]
fn signals_and_targets() {
    assert_eq!(parse_signal("SIGHUP"), Some(Signal::Hup));
    assert_eq!(parse_signal("hup"), None);
    let mut svc = service(ServiceType::Simple, "/bin/true");
    svc.kill_mode = KillMode::Process;
    svc.kill_signal = Some("SIGINT".to_owned());
    svc.timeout_stop_sec = Some(SdDuration::Finite(TimeSpan::from_secs(3)));
    let mut r = ServiceRunner::new(name("k.service"), svc);
    assert_eq!(r.stop_signal(), None);
    r.main_pid = Some(4);
    let p = r.stop_signal().unwrap();
    assert_eq!((p.target, p.signal), (Target::Pid(4), Signal::Int));
    assert_eq!(p.timeout, TimeSpan::from_secs(3));
    r.svc.kill_mode = KillMode::Nothing;
    assert_eq!(r.stop_signal().unwrap().target, Target::Nowhere);
}

#[test]
fn supervised_exits() {
    assert_eq!(supervise(ExitObservation::Clean, false), Some((ActiveState::Inactive, "dead")));
    assert_eq!(supervise(ExitObservation::Failed, false), Some((ActiveState::Failed, "failed")));
    assert_eq!(supervise(ExitObservation::NoChild, false), None);
    assert_eq!(supervise(ExitObservation::Failed, true), None);
    let mut r = ServiceRunner::new(name("x.service"), service(ServiceType::Simple, "/bin/true"));
    r.main_pid = Some(3);
    assert!(r.observed_exit(ExitObservation::Failed, false));
    assert_eq!(r.main_pid, None);
    assert_eq!(r.sub, "failed");
}

// ---- commands

#[test]
fn environment_and_commands() {
    let mut env = TextMap::new();
    load_env_file("# c\nA=1\nB=\"two words\"\n; d\nC\n", &mut env);
    assert_eq!(env.get("B").map(|s| s.as_str()), Some("two words"));
    assert_eq!(expand_vars("x${A}y$B$$", &env), expand_vars("x1ytwo words$$", &env));
    assert_eq!(expand_vars("plain", &env), "plain");
    let mut svc = service(ServiceType::Simple, "@/bin/echo zero ${A}");
    svc.environment = vec![("A".to_owned(), "7".to_owned())];
    svc.unset_environment = vec!["B".to_owned()];
    svc.working_directory = Some("~".to_owned());
    svc.user = Some("1000".to_owned());
    let e = resolve_environment(&svc, &env, &vec![]).unwrap();
    assert_eq!(e.get("A").map(|s| s.as_str()), Some("7"));
    let plan = build_command(
        "e.service",
        &svc.exec_start[0],
        &svc,
        &e,
        &vec![("A".to_owned(), "8".to_owned()), ("N".to_owned(), "9".to_owned())],
        &Some("/home/u".to_owned()),
        &Some("/state".to_owned()),
    )
    .unwrap();
    assert_eq!(plan.program, "/bin/echo");
    assert_eq!(plan.arg0.as_deref(), Some("zero"));
    assert_eq!(plan.args, vec!["7".to_owned()]);
    let child: Vec<(String, String)> =
        vec![("A".to_owned(), "8".to_owned()), ("N".to_owned(), "9".to_owned())];
    assert_eq!(*plan.env.entries(), child);
    assert_eq!(plan.working_dir.as_deref(), Some("/home/u"));
    assert_eq!(plan.uid, IdSource::Number(1000));
    assert_eq!(plan.stdout, Sink::Null);
    assert_eq!(
        stream_sink(
            &StandardStream::Journal("journal".to_owned()),
            "u.service",
            "out",
            &Some("/state".to_owned())
        ),
        Ok(Sink::Append("/state/journal/u.service.out.log".to_owned()))
    );
    assert!(resolve_working_dir("~", &None).is_err());
    assert_eq!(
        lookup_user_group(&Some("bob".to_owned()), &None),
        (IdSource::Named("bob".to_owned()), IdSource::PrimaryOfNamed("bob".to_owned()))
    );
}

#[test]
fn environment_files_may_be_missing() {
    let mut svc = service(ServiceType::Simple, "/bin/true");
    svc.environment_files = vec![
        EnvironmentFile { path: "/a".to_owned(), optional: true },
        EnvironmentFile { path: "/b".to_owned(), optional: false },
    ];
    let none = TextMap::new();
    let reads = vec![
        FileRead::Absent("no such file".to_owned()),
        FileRead::Contents("X=1\n".to_owned()),
    ];
    let env = resolve_environment(&svc, &none, &reads).unwrap();
    assert_eq!(*env.entries(), vec![("X".to_owned(), "1".to_owned())]);
    let reads = vec![
        FileRead::Failed("denied".to_owned()),
        FileRead::Contents("X=1\n".to_owned()),
    ];
    assert_eq!(
        resolve_environment(&svc, &none, &reads).err().unwrap(),
        "EnvironmentFile \"/a\" read failed: denied"
    );
    let reads = vec![
        FileRead::Contents("".to_owned()),
        FileRead::Absent("no such file".to_owned()),
    ];
    assert_eq!(
        resolve_environment(&svc, &none, &reads).err().unwrap(),
        "EnvironmentFile \"/b\" read failed: no such file"
    );
}

#[test]
fn child_gets_just_its_environment() {
    let svc = ServiceUnit::default();
    let cmd = ExecCommand::parse("@/usr/bin/sh login -l").unwrap();
    let none = TextMap::new();
    let state = Some("/state".to_owned());
    let plan = build_command("t.service", &cmd, &svc, &none, &vec![], &None, &state).unwrap();
    assert_eq!(plan.program, "/usr/bin/sh");
    assert_eq!(plan.arg0.as_deref(), Some("login"));
    assert_eq!(plan.args, vec!["-l".to_owned()]);
    assert!(plan.env.entries().is_empty());
    let mut env = TextMap::new();
    env.insert("A", "1");
    let extra = vec![("A".to_owned(), "2".to_owned()), ("A".to_owned(), "3".to_owned())];
    assert_eq!(
        *child_environment(&env, &extra).entries(),
        vec![("A".to_owned(), "3".to_owned())]
    );
    assert_eq!(env.get("A").map(|s| s.as_str()), Some("1"));
}

#[test]
fn cat_and_show_are_faithful() {
    let source = "# note\n[Service]\nExecStart=/bin/true\nPrivateTmp=no\nPrivateTmp=yes\n";
    let mut m = Manager::new();
    m.insert_loaded(name("foo.service"), loaded("foo.service", source));
    assert_eq!(m.cat(&name("foo.service")).unwrap(), source);
    let shown = m.show_properties(&name("foo.service")).unwrap();
    assert_eq!(shown.get("PrivateTmp").map(|s| s.as_str()), Some("yes"));
    assert_eq!(shown.get("ExecStart").map(|s| s.as_str()), Some("/bin/true"));
    let socket = "[Socket]\nListenStream=80\nPassCredentials=maybe\nAccept=yes\nMystery=1\n";
    m.insert_loaded(name("foo.socket"), loaded("foo.socket", socket));
    assert_eq!(m.cat(&name("foo.socket")).unwrap(), socket);
    let shown = m.show_properties(&name("foo.socket")).unwrap();
    assert_eq!(shown.get("PassCredentials").map(|s| s.as_str()), Some("maybe"));
    assert_eq!(shown.get("Mystery").map(|s| s.as_str()), Some("1"));
    assert_eq!(shown.get("Accept").map(|s| s.as_str()), Some("yes"));
    let queues = "[Unit]\nJoinsNamespaceOf=b.service\n[Socket]\nListenNetlink=route 1\n";
    m.insert_loaded(name("q.socket"), loaded("q.socket", queues));
    let shown = m.show_properties(&name("q.socket")).unwrap();
    assert_eq!(shown.get("ListenNetlink").map(|s| s.as_str()), Some("route 1"));
    assert_eq!(shown.get("JoinsNamespaceOf").map(|s| s.as_str()), Some("b.service"));
    let sly = "[Service]\nExecStart=/bin/true\nId=other\n";
    m.insert_loaded(name("sly.service"), loaded("sly.service", sly));
    let shown = m.show_properties(&name("sly.service")).unwrap();
    assert_eq!(shown.get("Id").map(|s| s.as_str()), Some("sly.service"));
}

// ---- timers

#[test]
fn triggers_work_at_the_end_of_the_calendar() {
    let now = utc(9999, 12, 31, 0, 0, 0);
    let clock = TimerClock {
        now,
        manager_start: now,
        activated_at: None,
        last_unit_active: None,
        last_unit_inactive: None,
        last_fire: None,
    };
    let mut t = TimerUnit::default();
    t.on_startup_sec = Some(SdDuration::Finite(TimeSpan { secs: 60, nanos: 0 }));
    let next = next_overall(&clock, &t).unwrap();
    assert_eq!(next.unix_timestamp(), now.unix_timestamp() + 60);
    t.on_startup_sec = Some(SdDuration::Finite(TimeSpan { secs: 86_400, nanos: 0 }));
    assert!(next_overall(&clock, &t).is_none());
}

#[test]
fn fires_every_minute() {
    let spec = CalendarSpec::parse("*-*-* *:*:00").unwrap();
    let now = utc(2026, 4, 27, 10, 30, 25);
    let next = next_fire(now, &spec, None).unwrap().civil();
    assert_eq!(next.hour, 10);
    assert_eq!(next.minute, 31);
    assert_eq!(next.second, 0);
}

#[test]
fn fires_on_specific_hour() {
    let spec = CalendarSpec::parse("*-*-* 09:00:00").unwrap();
    let now = utc(2026, 4, 27, 10, 30, 0);
    let next = next_fire(now, &spec, None).unwrap().civil();
    assert_eq!(next.day, 28);
    assert_eq!(next.hour, 9);
}

#[test]
fn weekday_constraint() {
    let spec = CalendarSpec::parse("Mon *-*-* 09:00:00").unwrap();
    let now = utc(2026, 4, 27, 10, 0, 0);
    let next = next_fire(now, &spec, None).unwrap().civil();
    assert_eq!(weekday(next), 1);
    assert_eq!((next.month, next.day), (5, 4));
}

#[test]
fn daily_shortcut() {
    let spec = CalendarSpec::parse("daily").unwrap();
    let now = utc(2026, 4, 27, 12, 0, 0);
    let next = next_fire(now, &spec, None).unwrap().civil();
    assert_eq!(next.hour, 0);
    assert_eq!(next.day, 28);
}

#[test]
fn timer_next_fire_minutely() {
    let spec = CalendarSpec::parse("*-*-* *:*:00").unwrap();
    let now = utc(2026, 4, 27, 10, 30, 25);
    let n = next_fire(now, &spec, None).unwrap().civil();
    assert_eq!(n.minute, 31);
    assert_eq!(n.second, 0);
}

#[test]
fn leap_days_and_dead_ends() {
    let spec = CalendarSpec::parse("*-02-29 00:00:00").unwrap();
    let next = next_fire(utc(2026, 4, 27, 0, 0, 0), &spec, None).unwrap().civil();
    assert_eq!((next.year, next.month, next.day), (2028, 2, 29));
    let never = CalendarSpec::parse("*-02-30 00:00:00").unwrap();
    assert!(next_fire(utc(2026, 4, 27, 0, 0, 0), &never, None).is_none());
    let spec = CalendarSpec::parse("*-*-* *:*:00").unwrap();
    let late = utc(2026, 4, 27, 11, 0, 0);
    let next = next_fire(utc(2026, 4, 27, 10, 0, 0), &spec, Some(late)).unwrap();
    assert_eq!(next.unix_timestamp(), late.unix_timestamp() + 60);
}

#[test]
fn calendar_days() {
    assert_eq!(utc(1970, 1, 1, 0, 0, 0).unix_timestamp(), 0);
    assert_eq!(utc(2000, 3, 1, 0, 0, 0).unix_timestamp(), 951868800);
    assert_eq!(weekday(utc(2026, 4, 27, 0, 0, 0).civil()), 1);
    assert_eq!(weekday(utc(2000, 1, 1, 0, 0, 0).civil()), 6);
    let c = DateTime::from_unix_timestamp(951782400).unwrap().civil();
    assert_eq!((c.year, c.month, c.day), (2000, 2, 29));
    let bad = Civil { year: 2026, month: 2, day: 29, hour: 0, minute: 0, second: 0 };
    assert!(DateTime::from_civil(bad, 0).is_none());
}

#[test]
fn next_overall_picks_earliest() {
    let mut t = TimerUnit::default();
    t.on_calendar.push(CalendarSpec::parse("*-*-* *:*:00").unwrap());
    let now = utc(2026, 4, 27, 10, 0, 30);
    let clock = TimerClock {
        now,
        manager_start: now,
        activated_at: None,
        last_unit_active: None,
        last_unit_inactive: None,
        last_fire: None,
    };
    let n = next_overall(&clock, &t).unwrap().civil();
    assert_eq!(n.minute, 1);
    t.on_startup_sec = Some(SdDuration::Finite(TimeSpan::from_secs(10)));
    let n = next_overall(&clock, &t).unwrap().civil();
    assert_eq!((n.minute, n.second), (0, 40));
}

#[test]
fn instant_only_in_the_future() {
    let now = DateTime::new(1000, 250_000_000, 0).unwrap();
    let later = DateTime::new(1002, 900_000_000, 0).unwrap();
    assert_eq!(to_instant(&later, &now), Some(TimeSpan { secs: 1, nanos: 750_000_000 }));
    assert_eq!(to_instant(&now, &now), None);
    assert_eq!(to_instant(&now, &later), None);
}

#[test]
fn deadline_zero_when_past() {
    let past = utc(2000, 1, 1, 0, 0, 0);
    let now = utc(2026, 1, 1, 0, 0, 0);
    assert_eq!(deadline_to_sleep(&past, &now), TimeSpan::zero());
}

#[test]
fn deadline_positive_when_future() {
    let now = utc(2026, 1, 1, 0, 0, 0);
    let future = now.checked_add(TimeSpan::from_secs(10)).unwrap();
    let dur = deadline_to_sleep(&future, &now);
    assert!(dur.secs >= 8 && dur.secs <= 11, "got {:?}", dur);
}

#[test]
fn stamps_read_back() {
    let t = utc(2026, 4, 27, 10, 30, 25);
    let s = last_fire_text(&t);
    assert_eq!(s, format!("{}", t.unix_timestamp()));
    assert_eq!(parse_last_fire(&s).unwrap().unix_timestamp(), t.unix_timestamp());
    assert!(parse_last_fire("soon").is_none());
    assert!(state_file("/s", &name("a.timer")).starts_with("/s/timers/"));
}

#[test]
fn scheduler_decisions() {
    let now = utc(2026, 4, 27, 10, 0, 0);
    let later = utc(2026, 4, 27, 11, 0, 0);
    let timers = vec![
        Scheduled { name: name("a.timer"), active: ActiveState::Active, next: Some(later) },
        Scheduled { name: name("b.timer"), active: ActiveState::Active, next: Some(now) },
        Scheduled { name: name("c.timer"), active: ActiveState::Inactive, next: Some(now) },
    ];
    let (at, n) = compute_next(&timers).unwrap();
    assert_eq!(at.unix_timestamp(), now.unix_timestamp());
    assert_eq!(n, name("b.timer"));
    assert_eq!(fire_target(&name("a.timer"), &TimerUnit::default()), name("a.service"));
    let mut tr = Triggers::new();
    tr.record(name("a.service"), name("a.timer"));
    assert!(tr.state_changed(&name("a.service"), ActiveState::Active).is_none());
    assert_eq!(
        tr.state_changed(&name("a.service"), ActiveState::Inactive),
        Some(name("a.timer"))
    );
    assert!(tr.state_changed(&name("a.service"), ActiveState::Inactive).is_none());
}

#[test]
fn triggers_follow_events() {
    let mut tr = Triggers::new();
    assert!(!tr.fired(&name("a.service"), &name("a.timer"), ActiveState::Active));
    assert!(!tr.fired(&name("b.service"), &name("b.timer"), ActiveState::Active));
    assert!(tr.fired(&name("c.service"), &name("c.timer"), ActiveState::Inactive));
    let still = UnitEvent::StateChanged {
        unit: name("a.service"),
        active: ActiveState::Active,
        sub: "running".to_owned(),
    };
    assert!(tr.observe(&still).is_none());
    assert!(tr.observe(&UnitEvent::UnitNew(name("a.service"))).is_none());
    assert_eq!(tr.observe(&UnitEvent::UnitRemoved(name("a.service"))), Some(name("a.timer")));
    assert!(tr.observe(&UnitEvent::UnitRemoved(name("a.service"))).is_none());
    let failed = UnitEvent::StateChanged {
        unit: name("b.service"),
        active: ActiveState::Failed,
        sub: "failed".to_owned(),
    };
    assert_eq!(tr.observe(&failed), Some(name("b.timer")));
    assert!(tr.observe(&UnitEvent::UnitRemoved(name("c.service"))).is_none());
}

#[test]
fn missed_events_are_made_up_for() {
    let mut m = Manager::new();
    let (a, b) = (name("a.timer"), name("b.timer"));
    for n in [&a, &b] {
        m.status.put((*n).clone(), UnitStatus::default());
    }
    m.mark_state(&a, ActiveState::Active, "running");
    assert_eq!(m.active_units().names(), vec![a.clone()]);
    let mut tr = Triggers::new();
    tr.record(a.clone(), name("x.timer"));
    tr.record(b.clone(), name("y.timer"));
    assert_eq!(tr.resync(&m.active_units()), vec![name("y.timer")]);
    assert!(m.flip_to_waiting(&a).is_some());
    assert_eq!(m.unit_status(&a).sub, "waiting");
    assert!(m.flip_to_waiting(&b).is_none());
    assert!(m.flip_to_waiting(&name("none.timer")).is_none());
    assert_eq!(m.active_units().names(), vec![a]);
}

// ---- paths

fn answers(p: &PathUnit) -> Vec<bool> {
    p.watches
        .iter()
        .map(|w| match predicate_for_watch(w) {
            Probe::Exists(p) => Path::new(&p).exists(),
            other => panic!("{:?}", other),
        })
        .collect()
}

#[test]
fn a_look_fires_on_change() {
    assert!(fires(true, None, true));
    assert!(!fires(true, None, false));
    assert!(!fires(false, None, true));
    assert!(fires(false, Some(0), true));
    assert!(!fires(false, Some(0), false));
}

#[test]
fn exists_predicate() {
    let mut p = PathUnit::default();
    p.watches.push(PathWatch::Exists("/".to_owned()));
    assert!(predicate_holds(&p, &answers(&p)));
}

#[test]
fn does_not_exist() {
    let mut p = PathUnit::default();
    p.watches.push(PathWatch::Exists("/no/such/path/zzz".to_owned()));
    assert!(!predicate_holds(&p, &answers(&p)));
}

#[test]
fn path_predicate_initial_true_when_file_present() {
    let pu = PathUnit { watches: vec![PathWatch::Exists("/".to_owned())], ..Default::default() };
    assert!(predicate_holds(&pu, &answers(&pu)));
}

#[test]
fn glob_matches() {
    let pattern = "/tmp/d/*.txt".to_owned();
    match predicate_for_watch(&PathWatch::ExistsGlob(pattern)) {
        Probe::Glob { prefix, suffix } => {
            let (dir, head) = glob_place(&prefix, true);
            assert_eq!((dir.as_str(), head.as_str()), ("/tmp/d/", ""));
            assert!(glob_any_exists(&head, &suffix, &vec!["hello.txt".to_owned()]));
            assert!(!glob_any_exists(&head, &suffix, &vec!["hello.rs".to_owned()]));
        }
        other => panic!("{:?}", other),
    }
    assert_eq!(glob_place("/tmp/ab", false), ("/tmp".to_owned(), "ab".to_owned()));
    assert_eq!(glob_place("", false), (".".to_owned(), "".to_owned()));
}

#[test]
fn limiter_burst() {
    let p = PathUnit { trigger_limit_burst: Some(2), ..Default::default() };
    let mut l = TriggerLimiter::from_unit(&p);
    let now = TimeSpan::from_secs(100);
    assert!(l.allow(now));
    assert!(l.allow(now));
    assert!(!l.allow(now));
    assert!(l.allow(TimeSpan::from_secs(103)));
    let mut free = TriggerLimiter::from_unit(&PathUnit::default());
    assert_eq!(free.burst, 200);
    assert!((0..300).all(|_| free.allow(now)));
}

#[test]
fn create_watcher_for_existing_file() {
    let mut p = PathUnit::default();
    p.watches.push(PathWatch::Exists("/tmp/x".to_owned()));
    p.watches.push(PathWatch::ExistsGlob("/none/*.y".to_owned()));
    p.watches.push(PathWatch::Modified("/tmp/z".to_owned()));
    let w = PathWatcher::new(&p, &vec![(true, true), (false, false), (true, false)]);
    let seen: Vec<(&str, Notes)> =
        w.registrations.iter().map(|r| (r.path.as_str(), r.notes)).collect();
    assert_eq!(
        seen,
        vec![("/tmp", Notes::Entries), ("/tmp/x", Notes::Written), ("/tmp/z", Notes::Touched)]
    );
    assert_eq!(w.watches, vec![0, 2]);
    assert_eq!(w.poll(false, &vec![true, true]), None);
    assert_eq!(w.poll(true, &vec![false, true]), Some(1));
    assert_eq!(w.poll(true, &vec![false, false]), Some(0));
    assert_eq!(register_watch(&PathWatch::Changed("x".to_owned()), false, true).len(), 1);
}

#[test]
fn directories_to_make() {
    let mut p = PathUnit { make_directory: true, ..Default::default() };
    p.watches.push(PathWatch::Exists("/a/b/c".to_owned()));
    p.watches.push(PathWatch::ExistsGlob("/g/*".to_owned()));
    p.watches.push(PathWatch::DirectoryNotEmpty("/d/".to_owned()));
    assert_eq!(ensure_directories(&p), (vec!["/a/b".to_owned(), "/".to_owned()], 0o755));
    p.make_directory = false;
    p.directory_mode = Some(0o700);
    assert_eq!(ensure_directories(&p), (vec![], 0o700));
}

// ---- sockets

fn listen_on(a: &str) -> SocketUnit {
    let mut su = SocketUnit::default();
    su.listen.push(ListenSpec::Stream(SocketAddrSpec::parse(a).unwrap()));
    su
}

#[test]
fn binds_localhost_stream() {
    let ls = bind_all(&listen_on("127.0.0.1:0")).unwrap();
    assert_eq!(ls.len(), 1);
    assert_eq!(ls[0].name, "127.0.0.1:0");
    assert!(matches!(
        ls[0].bind,
        Bind::Inet { sock_type: SockType::Stream, backlog: Some(_), v6_only: false, .. }
    ));
}

#[test]
fn socket_binds_localhost_random_port() {
    let listeners = bind_all(&listen_on("127.0.0.1:0")).unwrap();
    assert_eq!(listeners.len(), 1);
}

#[test]
fn binds_unix_path() {
    let mut unit = listen_on("/tmp/s.sock");
    unit.remove_on_stop = true;
    let ls = bind_all(&unit).unwrap();
    assert_eq!(ls.len(), 1);
    assert_eq!(ls[0].remove_on_stop.as_deref(), Some("/tmp/s.sock"));
    assert_eq!(ls[0].name, "/tmp/s.sock");
}

#[test]
fn ports_and_families() {
    let ls = bind_all(&listen_on("8080")).unwrap();
    let names: Vec<&str> = ls.iter().map(|l| l.name.as_str()).collect();
    assert_eq!(names, vec!["0.0.0.0:8080", "[::]:8080"]);
    assert!(matches!(ls[1].bind, Bind::Inet { v6_only: true, .. }));
    assert_eq!(bind_all(&listen_on("@abs")).unwrap()[0].name, "/tmp/abs");
    let mut named = listen_on("[::1]:53");
    assert_eq!(bind_all(&named).unwrap()[0].name, "[::1]:53");
    named.file_descriptor_name = Some("dns".to_owned());
    assert_eq!(bind_all(&named).unwrap()[0].name, "dns");
    assert_eq!(
        bind_all(&listen_on("vsock:1:2")),
        Err("address family not supported on macOS".to_owned())
    );
    let mut su = SocketUnit::default();
    su.listen.push(ListenSpec::Netlink("route".to_owned()));
    assert_eq!(bind_all(&su), Err("Linux-only Listen* directive".to_owned()));
    let mut su = SocketUnit::default();
    su.listen.push(ListenSpec::SequentialPacket(SocketAddrSpec::Port(1)));
    assert_eq!(
        bind_all(&su),
        Err("SOCK_SEQPACKET only supported on unix paths".to_owned())
    );
    let mut su = SocketUnit::default();
    su.listen.push(ListenSpec::Datagram(SocketAddrSpec::UnixAbstract("x".to_owned())));
    assert_eq!(bind_all(&su), Err("abstract namespace unsupported".to_owned()));
    let mut su = SocketUnit::default();
    su.listen.push(ListenSpec::Fifo("".to_owned()));
    assert_eq!(bind_all(&su).unwrap()[0].name, "fd0");
}

#[test]
fn inet_texts() {
    let text = |s: &str| {
        let v: Vec<char> = s.chars().collect();
        InetAddr::parse(&v).unwrap().to_text()
    };
    assert_eq!(text("[2001:db8:0:0:1:0:0:1]:80"), "[2001:db8::1:0:0:1]:80");
    assert_eq!(text("[1:2:3:4:5:6:7:8]:1"), "[1:2:3:4:5:6:7:8]:1");
    assert_eq!(text("[::ffff:10.0.0.1]:9"), "[::ffff:10.0.0.1]:9");
    assert_eq!(text("[1:0:3:4:5:6:7:8]:1"), "[1:0:3:4:5:6:7:8]:1");
    assert_eq!(text("10.1.2.3:65535"), "10.1.2.3:65535");
}

#[test]
fn empty_install_is_noop() {
    assert!(install(&vec![]).is_empty());
    assert_eq!(
        install(&vec!["a".to_owned(), "b".to_owned()]),
        vec![
            ("LISTEN_FDS".to_owned(), "2".to_owned()),
            ("LISTEN_FDNAMES".to_owned(), "a:b".to_owned()),
        ]
    );
    assert_eq!(fd_of(0), 3);
}

#[test]
fn listen_pid_digits() {
    let mut buf = [1u8; 16];
    let n = listen_pid(2147483647, &mut buf);
    assert_eq!(&buf[..n + 1], b"2147483647\0");
    let n = listen_pid(-5, &mut buf);
    assert_eq!(&buf[..n + 1], b"0\0");
}

// ---- installation

fn wanted_by_default() -> Install {
    let mut i = Install::default();
    i.wanted_by.insert(UnitName::plain("default", UnitKind::Target));
    i
}

#[test]
fn link_one_creates() {
    let l = Link {
        dir: "/c/default.target.wants".to_owned(),
        link_name: "hello.service".to_owned(),
        target: "/u/hello.service".to_owned(),
    };
    let mut out = EnableChanges::default();
    assert_eq!(link_one(&l, false, false, &mut out), LinkAction::Create);
    assert_eq!(out.changes[0].target, "/c/default.target.wants/hello.service");
    assert_eq!(out.changes[0].source, "/u/hello.service");
    assert_eq!(link_one(&l, true, false, &mut out), LinkAction::Keep);
    assert_eq!(out.changes.len(), 1);
    assert_eq!(link_one(&l, true, true, &mut out), LinkAction::Replace);
    assert_eq!(out.changes.len(), 2);
}

#[test]
fn enable_with_xdg_isolated() {
    let base = config_dir(&Some("/x".to_owned()), &None).unwrap();
    let n = UnitName::plain("hello", UnitKind::Service);
    let i = wanted_by_default();
    assert!(!i.is_empty());
    let links = enable(&n, &i, &base, &None);
    assert_eq!(links.len(), 1);
    assert_eq!(links[0].dir, "/x/systemd/user/default.target.wants");
    assert_eq!(links[0].link_name, "hello.service");
    assert_eq!(links[0].target, "hello.service");
    let entries = vec![BaseEntry {
        file_name: "default.target.wants".to_owned(),
        is_dir: true,
        is_symlink: false,
        holds_unit: true,
    }];
    let r2 = disable(&n, &base, &entries);
    assert_eq!(r2.changes.len(), 1);
    assert_eq!(r2.changes[0].target, "/x/systemd/user/default.target.wants/hello.service");
    assert_eq!(r2.changes[0].change_type, "unlink");
}

#[test]
fn enabling_asks_for_links_only_with_info() {
    let n = UnitName::plain("hello", UnitKind::Service);
    let (carries, links) = enable_plan(&n, &wanted_by_default(), "/x", &None);
    assert!(carries);
    assert_eq!(links, enable(&n, &wanted_by_default(), "/x", &None));
    let (carries, links) = enable_plan(&n, &Install::default(), "/x", &None);
    assert!(!carries);
    assert!(links.is_empty());
}

#[test]
fn enabling_again_changes_nothing() {
    let n = UnitName::plain("hello", UnitKind::Service);
    let links = enable(&n, &wanted_by_default(), "/x/systemd/user", &None);
    let mut first = EnableChanges::default();
    let mut second = EnableChanges::default();
    for l in &links {
        assert_eq!(link_one(l, false, false, &mut first), LinkAction::Create);
        assert_eq!(link_one(l, true, false, &mut second), LinkAction::Keep);
    }
    assert_eq!(first.changes.len(), 1);
    assert_eq!(first.changes[0].change_type, "symlink");
    assert_eq!(first.changes[0].target, "/x/systemd/user/default.target.wants/hello.service");
    assert!(second.changes.is_empty());
}

#[test]
fn install_creates_wants_symlink() {
    let base = config_dir(&None, &Some("/home/u".to_owned())).unwrap();
    let links =
        enable(&UnitName::plain("hi", UnitKind::Service), &wanted_by_default(), &base, &None);
    assert_eq!(links[0].dir, "/home/u/.config/systemd/user/default.target.wants");
    assert_eq!(links[0].link_name, "hi.service");
}

#[test]
fn mask_unmask_roundtrip() {
    let n = UnitName::plain("foo", UnitKind::Service);
    let l = mask(&n, "/x/systemd/user");
    assert_eq!((l.link_name.as_str(), l.target.as_str()), ("foo.service", "/dev/null"));
    let own = Some(l.target);
    assert_eq!(unit_file_state(&own, &vec![], false, false, None), "masked");
    let u = unmask(&n, "/x/systemd/user", &own);
    assert_eq!(u.changes[0].target, "/x/systemd/user/foo.service");
    assert!(unmask(&n, "/x", &Some("/etc/foo.service".to_owned())).changes.is_empty());
}

#[test]
fn file_states() {
    let i = wanted_by_default();
    let none = Install::default();
    let dirs = vec!["/etc/systemd/user".to_owned()];
    let out = Some("/o/x.service".to_owned());
    assert_eq!(unit_file_state(&out, &dirs, true, true, None), "linked");
    let deep = Some("/etc/systemd/user/sub/x.service".to_owned());
    assert_eq!(unit_file_state(&deep, &dirs, true, true, None), "linked");
    let relative = Some("y.service".to_owned());
    assert_eq!(unit_file_state(&relative, &dirs, true, true, None), "linked");
    let within = Some("/etc/systemd/user/y.service".to_owned());
    assert_eq!(unit_file_state(&within, &dirs, true, true, Some(&i)), "enabled");
    assert_eq!(unit_file_state(&within, &dirs, false, true, Some(&i)), "disabled");
    assert_eq!(unit_file_state(&None, &dirs, true, true, None), "enabled");
    assert_eq!(unit_file_state(&None, &dirs, false, true, Some(&i)), "disabled");
    assert_eq!(unit_file_state(&None, &dirs, false, true, Some(&none)), "static");
    assert_eq!(unit_file_state(&None, &dirs, false, false, Some(&i)), "not-found");
    assert!(config_dir(&None, &None).is_err());
    let cfg = config_dir(&Some("/c".to_owned()), &None);
    assert_eq!(base_dir(true, &Some("/run".to_owned()), cfg.clone()), Ok("/run/systemd/user".to_owned()));
    assert_eq!(base_dir(true, &None, cfg.clone()), cfg);
    let e = |f: &str| BaseEntry {
        file_name: f.to_owned(),
        is_dir: true,
        is_symlink: false,
        holds_unit: true,
    };
    assert!(has_install_link(&vec![e("x"), e("y.requires")]));
    assert!(!has_install_link(&vec![e("x")]));
    let dirs = vec!["/a".to_owned(), "/b".to_owned()];
    assert_eq!(
        locate_fragment(&name("q.service"), &dirs, &vec![false, true]).as_deref(),
        Some("/b/q.service")
    );
    assert!(locate_fragment(&name("q.service"), &dirs, &vec![false, false]).is_none());
}

#[test]
fn search_directories() {
    let h = Some("/home/u".to_owned());
    assert_eq!(xdg_config_home(&None, &h).as_deref(), Some("/home/u/.config"));
    assert_eq!(state_dir(&None, &h).as_deref(), Some("/home/u/.local/state"));
    assert_eq!(
        systeml_state_dir(&Some("/st".to_owned()), &h).as_deref(),
        Some("/st/systeml")
    );
    assert_eq!(
        user_config_dir(&None, &h).as_deref(),
        Some("/home/u/.config/systemd/user")
    );
    let ps = user_search_paths(&Some("/run".to_owned()), &Some("/c".to_owned()));
    assert_eq!(ps.len(), 13);
    assert_eq!(ps[0], "/run/systeml/user.control");
    assert_eq!(ps[4], "/c/systemd/user");
    assert_eq!(ps[6], "/etc/systemd/user");
    assert_eq!(user_search_paths(&None, &None).len(), 5);
}

// ---- the manager

#[test]
fn loading_and_states() {
    let mut m = Manager::new();
    let n = name("hello.service");
    assert_eq!(m.unit_status(&n).load, LoadState::NotFound);
    assert_eq!(m.add_parsed(name("hello.service"), loaded("hello.service", HELLO)), UnitEvent::UnitNew(name("hello.service")));
    let st = m.unit_status(&n);
    assert_eq!((st.load, st.active, st.sub.as_str()), (LoadState::Loaded, ActiveState::Inactive, "dead"));
    assert_eq!(st.description, "Hello fixture");
    m.mark_state(&n, ActiveState::Failed, "failed");
    assert_eq!(m.unit_status(&n).active, ActiveState::Failed);
    assert!(m.reset_failed_unit(&n).is_some());
    assert_eq!(m.unit_status(&n).sub, "dead");
    assert!(m.reset_failed_unit(&n).is_none());
    assert_eq!(m.list_units().len(), 1);
}

#[test]
fn start_jobs() {
    let mut m = Manager::new();
    m.add_parsed(name("hello.service"), loaded("hello.service", HELLO));
    m.add_parsed(
        name("t.timer"),
        loaded("t.timer", "[Timer]\nOnCalendar=daily\nPersistent=yes\n"),
    );
    let j = m.start_unit(&name("hello.service"));
    assert_eq!(j.id, JobId(1));
    assert_eq!(j.plan, Ok(StartPlan::RunService));
    assert_eq!(
        j.events[0],
        UnitEvent::JobNew { id: JobId(1), unit: name("hello.service"), kind: JobType::Start }
    );
    assert_eq!(m.unit_status(&name("hello.service")).active, ActiveState::Activating);
    let (events, supervise) = m.service_started(
        &name("hello.service"),
        j.id,
        ActiveState::Active,
        "running",
        ServiceType::Simple,
        false,
    );
    assert!(supervise);
    assert_eq!(
        events[1],
        UnitEvent::JobRemoved {
            id: JobId(1),
            unit: name("hello.service"),
            outcome: JobOutcome::Done
        }
    );
    let j = m.start_unit(&name("t.timer"));
    assert_eq!(j.plan, Ok(StartPlan::Finished { wake_timers: true, stamp: true }));
    assert_eq!(m.unit_status(&name("t.timer")).sub, "waiting");
    let j = m.start_unit(&name("gone.service"));
    assert_eq!(j.plan, Err("no runner for gone.service".to_owned()));
    let (id, _) = m.stop_unit(&name("t.timer"));
    let (_, wake) = m.unit_stopped(&name("t.timer"), id);
    assert!(wake);
    let (id, _) = m.restart_unit(&name("hello.service"));
    assert_eq!(m.restart_stopped(&name("hello.service"), id).plan, Ok(StartPlan::RunService));
    let (id, _, has) = m.reload_unit(&name("t.timer"));
    assert!(!has);
    assert_eq!(
        Manager::unit_reloaded(&name("t.timer"), id, None),
        UnitEvent::JobRemoved { id, unit: name("t.timer"), outcome: JobOutcome::Skipped }
    );
}

#[test]
fn reload_keeps_state_and_drops_units() {
    let mut m = Manager::new();
    m.add_parsed(name("hello.service"), loaded("hello.service", HELLO));
    m.add_parsed(name("old.target"), loaded("old.target", "[Unit]\nDescription=o\n"));
    m.mark_state(&name("hello.service"), ActiveState::Active, "running");
    let found = vec![
        (name("new.target"), loaded("new.target", "[Unit]\nDescription=n\n")),
        (
            name("hello.service"),
            loaded("hello.service", &HELLO.replace("Hello fixture", "Changed")),
        ),
    ];
    let events = m.daemon_reload(found);
    assert_eq!(
        events,
        vec![
            UnitEvent::UnitRemoved(name("old.target")),
            UnitEvent::UnitNew(name("new.target")),
            UnitEvent::UnitNew(name("hello.service")),
        ]
    );
    let st = m.unit_status(&name("hello.service"));
    assert_eq!((st.active, st.sub.as_str()), (ActiveState::Active, "running"));
    assert_eq!(st.description, "Changed");
    assert_eq!(m.unit_status(&name("old.target")).load, LoadState::NotFound);
    assert!(!m.units.contains(&name("old.target")));
    assert_eq!(m.units.len(), 2);
}

#[test]
fn first_file_of_a_name_counts() {
    let files = vec![
        "/a/x.service".to_owned(),
        "/a/notes.txt".to_owned(),
        "/b/x.service".to_owned(),
        "/b/y.timer".to_owned(),
    ];
    let f = found_units(&files);
    assert_eq!(f.len(), 2);
    assert_eq!(f.get(&name("x.service")).map(|s| s.as_str()), Some("/a/x.service"));
}

#[test]
fn activation_at_startup() {
    let mut m = Manager::new();
    m.add_parsed(name("hello.service"), loaded("hello.service", HELLO));
    m.add_parsed(name("t.target"), loaded("t.target", "[Unit]\nDescription=t\n"));
    assert!(m.activates_at_startup(&name("hello.service"), true));
    assert!(!m.activates_at_startup(&name("hello.service"), false));
    assert!(!m.activates_at_startup(&name("t.target"), true));
    m.mark_state(&name("hello.service"), ActiveState::Active, "running");
    assert!(!m.activates_at_startup(&name("hello.service"), true));
}

#[test]
fn unit_files_and_also() {
    let mut m = Manager::new();
    m.add_parsed(
        name("a.service"),
        loaded(
            "a.service",
            "[Service]\nExecStart=/bin/a\n[Install]\nWantedBy=default.target\nAlso=b.socket a.service\n",
        ),
    );
    let facts = FileFacts { own: None, search: vec![], has_link: false, has_fragment: true };
    assert_eq!(m.unit_file_state(&name("a.service"), &facts), "disabled");
    let found = found_units(&vec!["/u/a.service".to_owned(), "/u/b.socket".to_owned()]);
    let seen = vec![facts, FileFacts { own: None, search: vec![], has_link: true, has_fragment: true }];
    assert_eq!(
        m.list_unit_files(&found, &seen),
        vec![
            (name("a.service"), "/u/a.service".to_owned(), "disabled"),
            (name("b.socket"), "/u/b.socket".to_owned(), "enabled"),
        ]
    );
    assert_eq!(
        m.with_also(&vec![name("a.service")]),
        vec![name("a.service"), name("b.socket")]
    );
    assert!(m.install_of(&name("zz.service")).is_empty());
    assert_eq!(m.fragment_path(&name("a.service")), None);
    let mut total = EnableChanges::default();
    let one = EnableChanges { carries_install_info: true, changes: vec![] };
    add_changes(&mut total, one);
    assert!(total.carries_install_info);
}

#[test]
fn shown_properties() {
    let mut m = Manager::new();
    let src = HELLO.replace("Type=simple", "Type=oneshot\nRestart=on-failure\nTimeoutStartSec=1min");
    m.add_parsed(name("hello.service"), loaded("hello.service", &src));
    let p = m.show_properties(&name("hello.service")).unwrap();
    let get = |k: &str| p.get(k).map(|s| s.as_str().to_owned());
    assert_eq!(get("Id").as_deref(), Some("hello.service"));
    assert_eq!(get("Type").as_deref(), Some("oneshot"));
    assert_eq!(get("Restart").as_deref(), Some("onfailure"));
    assert_eq!(get("TimeoutStartUSec").as_deref(), Some("60000000us"));
    assert_eq!(get("ActiveState").as_deref(), Some("inactive"));
    assert_eq!(get("WantedBy").as_deref(), Some("default.target"));
    assert_eq!(get("ExecStart").as_deref(), Some("/bin/echo hi"));
    assert_eq!(get("ExecStop"), None);
    assert_eq!(
        m.cat(&name("none.service")),
        Err("unit not loaded: none.service".to_owned())
    );
    assert!(m.cat(&name("hello.service")).unwrap().contains("ExecStart=/bin/echo hi"));
}
