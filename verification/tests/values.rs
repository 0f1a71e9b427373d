//! Values of directives, errors, and loading.

use systeml::unit::calendar::CalendarSpec;
use systeml::unit::condition::Condition;
use systeml::unit::duration::{parse_duration, SdDuration, TimeSpan};
use systeml::unit::env::parse_environment_line;
use systeml::unit::error::ParseError;
use systeml::unit::exec::{shell_split, ExecCommand};
use systeml::unit::load::{
    candidate_dropin_dirs, is_activatable, list_unit_files, load_unit_in, locate_main,
    main_fragment_candidates, select_dropins, DropIn,
};
use systeml::unit::name::{UnitKind, UnitName};
use systeml::unit::service::{
    ExitStatus, KillMode, NotifyAccess, ProcessOutcome, RLimit, Restart, ServiceType, ServiceUnit,
    StandardStream,
};
use systeml::unit::socket::SocketAddrSpec;
use systeml::unit::spec::{parse_unit_str, UnitTypeData};
use systeml::unit::timer::TimerUnit;

fn name(s: &str) -> UnitName {
    UnitName::from_str(s).unwrap()
}

fn secs(n: u64) -> SdDuration {
    SdDuration::Finite(TimeSpan::from_secs(n))
}

fn service_of(src: &str) -> ServiceUnit {
    match parse_unit_str(name("x.service"), src, None) {
        Ok(p) => match p.unit.kind {
            UnitTypeData::Service(s) => s,
            _ => panic!(),
        },
        Err(e) => panic!("{}", e.message()),
    }
}

fn error_of(n: &str, src: &str) -> ParseError {
    match parse_unit_str(name(n), src, Some("/u/x")) {
        Ok(_) => panic!("{src:?} was read"),
        Err(e) => e,
    }
}

// ---- errors

#[test]
fn names_that_are_none() {
    for s in ["", "foo", "foo.txt", ".service", "a b.service", "@x.service"] {
        assert!(matches!(UnitName::from_str(s), Err(ParseError::InvalidUnitName { .. })), "{s:?}");
    }
    let e = UnitName::from_str("foo.txt").err().unwrap();
    assert!(e.message().starts_with("invalid unit name \"foo.txt\": "));
}

#[test]
fn wrong_values_are_errors() {
    for (n, section, line) in [
        ("x.service", "Service", "Restart=maybe"),
        ("x.service", "Service", "TimeoutStartSec=soon"),
        ("x.service", "Service", "RemainAfterExit=perhaps"),
        ("x.service", "Service", "ExecStart="),
        ("x.service", "Unit", "JobTimeoutSec=soon"),
        ("x.socket", "Socket", "Backlog=many"),
        ("x.timer", "Timer", "OnBootSec=soon"),
        ("x.timer", "Timer", "Persistent=perhaps"),
        ("x.path", "Path", "DirectoryMode=9"),
        ("x.path", "Path", "Unit=nothing"),
    ] {
        let e = error_of(n, &format!("[{section}]\n{line}\n"));
        let (k, v) = line.split_once('=').unwrap();
        match &e {
            ParseError::BadDirective { path, line, section: s, key, value, .. } => {
                assert_eq!((path.as_str(), *line), ("/u/x", 2));
                assert_eq!((s.as_str(), key.as_str(), value.as_str()), (section, k, v));
            }
            _ => panic!("{}", e.message()),
        }
        assert!(e.message().starts_with(&format!("/u/x:2: {section}: {k}=\"{v}\": ")));
    }
}

#[test]
fn broken_files_are_errors() {
    for src in ["A=b\n", "[Unit\nA=b\n", "[Unit]\nno equals sign\n"] {
        assert!(matches!(error_of("x.service", src), ParseError::Syntax { .. }), "{src:?}");
    }
    let missing = ParseError::Missing {
        path: "/u/x".to_owned(),
        section: "Service",
        key: "ExecStart",
        kind: "service",
    };
    assert_eq!(missing.message(), "/u/x: [Service] ExecStart is required for service units");
}

// ---- names

#[test]
fn names_read_back() {
    for s in ["a.service", "a@.timer", "a@b.socket", "a-b_c:1.path", "x@y@z.target"] {
        if let Ok(n) = UnitName::from_str(s) {
            assert_eq!(n.to_text(), s);
        }
    }
    assert_eq!(UnitKind::from_suffix(".timer"), Some(UnitKind::Timer));
    assert_eq!(UnitKind::from_suffix("timer"), Some(UnitKind::Timer));
    assert_eq!(UnitKind::from_suffix("exe"), None);
    assert!(name("a.service").comes_before(&name("b.service")));
    assert!(!name("b.service").comes_before(&name("a.service")));
}

// ---- durations

#[test]
fn spans_of_time() {
    assert_eq!(parse_duration("90", 1), Ok(secs(90)));
    assert_eq!(parse_duration("2", 60), Ok(secs(120)));
    assert_eq!(parse_duration("5min 20s", 1), Ok(secs(320)));
    assert_eq!(parse_duration("1h30m5s", 1), Ok(secs(5405)));
    assert_eq!(parse_duration("2w", 1), Ok(secs(1_209_600)));
    assert_eq!(parse_duration("1y", 1), Ok(secs(31_557_600)));
    let span = TimeSpan { secs: 0, nanos: 1_500_000 };
    assert_eq!(parse_duration("1.5ms", 1), Ok(SdDuration::Finite(span)));
    assert_eq!(parse_duration("", 1), Err("empty duration".to_owned()));
    assert_eq!(parse_duration("5xyz", 1), Err("unknown unit \"xyz\"".to_owned()));
    assert_eq!(parse_duration("-5", 1), Err("expected digit, got '-'".to_owned()));
    assert_eq!(parse_duration("1.2.3s", 1), Err("bad number \"1.2.3\"".to_owned()));
    assert!(secs(1).is_finite());
    assert!(!SdDuration::Infinity.is_finite());
    assert_eq!(SdDuration::from(TimeSpan::from_secs(3)), secs(3));
    assert_eq!(TimerUnit::default_accuracy(), secs(60));
    assert_eq!(ServiceUnit::default_timeout_start_sec(), secs(90));
    assert_eq!(ServiceUnit::default_timeout_stop_sec(), secs(90));
}

// ---- calendars

#[test]
fn calendar_fields() {
    let s = CalendarSpec::parse("Mon,Fri *-02-29 06:30").unwrap();
    assert_eq!(s.weekdays.values.as_deref(), Some(&[1u32, 5][..]));
    assert_eq!(s.month.values.as_deref(), Some(&[2u32][..]));
    assert_eq!(s.day.values.as_deref(), Some(&[29u32][..]));
    assert_eq!(s.hour.values.as_deref(), Some(&[6u32][..]));
    assert_eq!(s.minute.values.as_deref(), Some(&[30u32][..]));
    assert_eq!(s.second.values.as_deref(), Some(&[0u32][..]));
    assert!(s.year.values.is_none());
    assert_eq!(s.raw, "Mon,Fri *-02-29 06:30");
    let ranged = CalendarSpec::parse("*-*-* 08..10:00:00").unwrap();
    assert_eq!(ranged.hour.values.as_deref(), Some(&[8u32, 9, 10][..]));
    assert!(CalendarSpec::parse("Mon..").is_err());
    assert!(CalendarSpec::parse("*-*-* aa:00").is_err());
}

// ---- command lines

#[test]
fn words_of_a_command() {
    let words = shell_split("a  'b c' \"d\\te\\q\" f\\ g").unwrap();
    assert_eq!(words, vec!["a", "b c", "d\te\\q", "f g"]);
    assert!(shell_split("a \\").is_err());
    assert!(shell_split("a 'b").is_err());
    assert!(ExecCommand::parse("").is_err());
    assert!(parse_environment_line("NOVALUE").is_err());
}

// ---- values of a service

#[test]
fn service_values() {
    let s = service_of(
        "[Service]\nType=notify\nExecStart=-/bin/b x\n\
         Restart=on-abnormal\nRestartSec=2\nKillMode=mixed\nNotifyAccess=all\n\
         Environment=A=1 B=2\nEnvironmentFile=-/e\nUMask=027\nStandardOutput=append:/o\n\
         SuccessExitStatus=7 SIGTERM\nLimitNOFILE=10:20\nWorkingDirectory=~\n",
    );
    assert_eq!(s.service_type, ServiceType::Notify);
    assert_eq!(s.exec_start.len(), 1);
    assert_eq!(s.exec_start[0].argv, vec!["/bin/b", "x"]);
    assert_eq!(s.restart, Restart::OnAbnormal);
    assert_eq!(s.restart_sec, secs(2));
    assert_eq!(s.kill_mode, KillMode::Mixed);
    assert_eq!(s.notify_access, NotifyAccess::All);
    assert_eq!(s.environment.len(), 2);
    assert!(s.environment_files[0].optional);
    assert_eq!(s.umask, Some(0o27));
    assert_eq!(s.standard_output, StandardStream::Append("/o".to_owned()));
    assert_eq!(
        s.success_exit_status,
        vec![ExitStatus::Code(7), ExitStatus::Signal("SIGTERM".to_owned())]
    );
    assert_eq!(s.limit_nofile, Some(RLimit { soft: Some(10), hard: Some(20) }));
    assert_eq!(s.working_directory.as_deref(), Some("~"));
}

#[test]
fn restart_policies() {
    let all = [
        ProcessOutcome::ExitedSuccess,
        ProcessOutcome::ExitedNonZero,
        ProcessOutcome::Signaled,
        ProcessOutcome::Watchdog,
        ProcessOutcome::CoreDumped,
    ];
    for o in all {
        assert!(!Restart::No.should_restart(o));
        assert!(Restart::Always.should_restart(o));
        assert_ne!(Restart::OnSuccess.should_restart(o), Restart::OnFailure.should_restart(o));
        if Restart::OnAbnormal.should_restart(o) {
            assert!(Restart::OnFailure.should_restart(o));
        }
    }
}

#[test]
fn addresses() {
    assert!(matches!(SocketAddrSpec::parse("/run/x"), Ok(SocketAddrSpec::UnixPath(_))));
    assert!(matches!(SocketAddrSpec::parse("8080"), Ok(SocketAddrSpec::Port(8080))));
    assert!(matches!(SocketAddrSpec::parse("127.0.0.1:80"), Ok(SocketAddrSpec::Inet(_))));
    assert!(SocketAddrSpec::parse("127.0.0.300:80").is_err());
    assert!(Condition::parse("ACPower", "perhaps").is_err());
}

// ---- loading

#[test]
fn first_fragment_wins() {
    let dirs = vec!["/a".to_owned(), "/b".to_owned()];
    let n = name("x@1.service");
    assert_eq!(
        main_fragment_candidates(&n, &dirs),
        vec!["/a/x@1.service", "/b/x@1.service", "/a/x@.service", "/b/x@.service"]
    );
    let found = locate_main(&n, &dirs, &vec![false, true, true, false]).ok();
    assert_eq!(found, Some(("/b/x@1.service".to_owned(), false)));
    let template = locate_main(&n, &dirs, &vec![false, false, false, true]).ok();
    assert_eq!(template, Some(("/b/x@.service".to_owned(), true)));
    let e = locate_main(&n, &dirs, &vec![false; 4]).err().unwrap();
    assert!(matches!(e, ParseError::Io { .. }));
    assert_eq!(
        e.message(),
        "cannot read x@1.service: unit file not found in any search path"
    );
}

#[test]
fn dropins_are_stacked() {
    let n = name("x@1.service");
    assert_eq!(
        candidate_dropin_dirs(&n, "/a"),
        vec!["/a/x@1.service.d", "/a/x@.service.d", "/a/service.d"]
    );
    let entries = vec!["/d/b.conf".to_owned(), "/d/note".to_owned(), "/d/a.conf".to_owned()];
    assert_eq!(select_dropins(&entries), vec!["/d/a.conf", "/d/b.conf"]);
    let dropin = |p: &str, s: &str| DropIn { path: p.to_owned(), source: s.to_owned() };
    let dirs = vec![
        vec![dropin("/d/a.conf", "[Unit]\nDescription=second\n")],
        vec![dropin("/e/b.conf", "[Service]\nExecStart=/bin/new\nPrivateTmp=yes\n")],
    ];
    let main = "[Unit]\nDescription=first\n[Service]\nExecStart=/bin/old\n";
    let lu = match load_unit_in("/a/x.service", main, false, &dirs) {
        Ok(lu) => lu,
        Err(e) => panic!("{}", e.message()),
    };
    assert_eq!(lu.unit.description, "second");
    assert_eq!(lu.unit.fragment_paths, vec!["/a/x.service", "/d/a.conf", "/e/b.conf"]);
    assert!(lu.warnings.iter().any(|w| w.message.contains("PrivateTmp")));
    let UnitTypeData::Service(s) = &lu.unit.kind else {
        panic!()
    };
    assert_eq!(s.exec_start.len(), 2);
    assert_eq!(s.exec_start[1].program, "/bin/new");
    assert!(is_activatable(&lu.unit));
    assert_eq!(
        lu.unit.render_cat(),
        "[Unit]\nDescription=first\n[Service]\nExecStart=/bin/old\n\
         [Unit]\nDescription=second\n\
         [Service]\nExecStart=/bin/new\nPrivateTmp=yes\n"
    );
    assert!(load_unit_in("/a/x.service", main, false, &vec![vec![dropin("/d/a", "x\n")]]).is_err());
}

#[test]
fn unit_files_are_listed() {
    let files = vec!["/a/x.service".to_owned(), "/a/x.txt".to_owned(), "/b/x.service".to_owned()];
    let listed = list_unit_files(&files);
    assert_eq!(listed.len(), 2);
    assert!(listed.iter().all(|f| f.0.same_as(&name("x.service"))));
    assert_eq!(listed[1].1, "/b/x.service");
}
