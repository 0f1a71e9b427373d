//! Unit files: names, directives, values.

use systeml::unit::calendar::{CalendarSpec, FieldSet};
use systeml::unit::condition::{Condition, ConditionCheck};
use systeml::unit::duration::{parse_duration, SdDuration, TimeSpan};
use systeml::unit::env::{parse_environment_line, EnvironmentFile};
use systeml::unit::exec::{ExecCommand, ExecFlags};
use systeml::unit::error::WarningKind;
use systeml::unit::ini::{parse, render_ini};
use systeml::unit::name::{UnitKind, UnitName};
use systeml::unit::socket::SocketAddrSpec;
use systeml::unit::spec::{parse_unit_str, ParsedUnit, UnitTypeData};

fn name(s: &str) -> UnitName {
    UnitName::from_str(s).unwrap()
}

fn parsed(n: &str, src: &str) -> ParsedUnit {
    match parse_unit_str(name(n), src, None) {
        Ok(p) => p,
        Err(e) => panic!("{}", e.message()),
    }
}

// ---- calendar

#[test]
fn shortcut_daily() {
    let s = CalendarSpec::parse("daily").unwrap();
    assert_eq!(s.hour, FieldSet::single(0));
    assert_eq!(s.minute, FieldSet::single(0));
    assert_eq!(s.second, FieldSet::single(0));
}

#[test]
fn time_only() {
    let s = CalendarSpec::parse("12:30:00").unwrap();
    assert_eq!(s.hour, FieldSet::single(12));
    assert_eq!(s.minute, FieldSet::single(30));
}

#[test]
fn weekday_range_with_time() {
    let s = CalendarSpec::parse("Mon..Fri 09:00:00").unwrap();
    assert_eq!(s.weekdays.values.as_deref(), Some(&[1u32, 2, 3, 4, 5][..]));
    assert_eq!(s.hour, FieldSet::single(9));
}

#[test]
fn step_minutes() {
    let s = CalendarSpec::parse("*-*-* *:*/15:00").unwrap();
    assert_eq!(s.minute.values.as_deref(), Some(&[0u32, 15, 30, 45][..]));
}

#[test]
fn list() {
    let s = CalendarSpec::parse("*-*-* 00,06,12,18:00:00").unwrap();
    assert_eq!(s.hour.values.as_deref(), Some(&[0u32, 6, 12, 18][..]));
}

// ---- conditions

#[test]
fn parse_negate() {
    let c = Condition::parse("PathExists", "!/etc/foo").unwrap();
    assert!(c.negate);
    assert!(matches!(c.check, ConditionCheck::PathExists(p) if p == "/etc/foo"));
}

#[test]
fn parse_trigger() {
    let c = Condition::parse("PathExists", "|/etc/foo").unwrap();
    assert!(c.trigger);
    assert!(!c.negate);
}

#[test]
fn parse_trigger_and_negate() {
    let c = Condition::parse("PathExists", "|!/etc/foo").unwrap();
    assert!(c.trigger);
    assert!(c.negate);
}

#[test]
fn unknown_preserved() {
    let c = Condition::parse("FooBarBaz", "wat").unwrap();
    assert!(matches!(c.check, ConditionCheck::Unknown { .. }));
}

#[test]
fn malformed_bool_errors() {
    assert!(Condition::parse("FirstBoot", "maybe").is_err());
    assert!(Condition::parse("ACPower", "kinda").is_err());
}

// ---- durations

#[test]
fn bare_integer_uses_default() {
    assert_eq!(
        parse_duration("30", 1).unwrap(),
        SdDuration::Finite(TimeSpan::from_secs(30))
    );
}

#[test]
fn simple_units() {
    assert_eq!(parse_duration("5s", 1).unwrap().as_std(), TimeSpan::from_secs(5));
    assert_eq!(parse_duration("5min", 1).unwrap().as_std(), TimeSpan::from_secs(300));
    assert_eq!(parse_duration("2h", 1).unwrap().as_std(), TimeSpan::from_secs(7200));
}

#[test]
fn composite() {
    assert_eq!(
        parse_duration("1h 30min 15s", 1).unwrap().as_std(),
        TimeSpan::from_secs(3600 + 1800 + 15)
    );
    assert_eq!(
        parse_duration("1h30min15s", 1).unwrap().as_std(),
        TimeSpan::from_secs(3600 + 1800 + 15)
    );
}

#[test]
fn fractional() {
    assert_eq!(parse_duration("0.5s", 1).unwrap().as_std(), TimeSpan::from_millis(500));
}

#[test]
fn infinity() {
    assert_eq!(parse_duration("infinity", 1).unwrap(), SdDuration::Infinity);
    assert_eq!(parse_duration("Infinity", 1).unwrap(), SdDuration::Infinity);
}

#[test]
fn rejects_garbage() {
    assert!(parse_duration("", 1).is_err());
    assert!(parse_duration("5xyz", 1).is_err());
}

// ---- environment

#[test]
fn pair() {
    let v = parse_environment_line("FOO=1 BAR=baz").unwrap();
    assert_eq!(
        v,
        vec![
            ("FOO".to_string(), "1".to_string()),
            ("BAR".to_string(), "baz".to_string())
        ]
    );
}

#[test]
fn quoted_value_with_space() {
    let v = parse_environment_line(r#"MSG="hello world""#).unwrap();
    assert_eq!(v, vec![("MSG".to_string(), "hello world".to_string())]);
}

#[test]
fn env_file_optional() {
    let f = EnvironmentFile::parse("-/etc/foo.env");
    assert!(f.optional);
    assert_eq!(f.path, "/etc/foo.env");
}

// ---- command lines

#[test]
fn plain() {
    let e = ExecCommand::parse("/bin/echo hello world").unwrap();
    assert_eq!(e.program, "/bin/echo");
    assert_eq!(e.argv, vec!["/bin/echo", "hello", "world"]);
    assert!(e.flags.is_empty());
}

#[test]
fn ignore_failure_flag() {
    let e = ExecCommand::parse("-/bin/false").unwrap();
    assert!(e.flags.contains(ExecFlags::IGNORE_FAILURE));
}

#[test]
fn quoted() {
    let e = ExecCommand::parse(r#"/usr/bin/env sh -c "echo 'hi there'""#).unwrap();
    assert_eq!(e.argv.last().unwrap(), "echo 'hi there'");
}

#[test]
fn set_argv0() {
    let e = ExecCommand::parse("@/usr/bin/sh login -l").unwrap();
    assert!(e.flags.contains(ExecFlags::SET_ARGV0));
    assert_eq!(e.program, "/usr/bin/sh");
    assert_eq!(e.argv, vec!["login", "-l"]);
}

#[test]
fn double_bang() {
    let e = ExecCommand::parse("!!/foo").unwrap();
    assert!(e.flags.contains(ExecFlags::AMBIENT_RAISE));
    assert!(!e.flags.contains(ExecFlags::RAISE_PRIV));
}

#[test]
fn flag_then_dash() {
    let e = ExecCommand::parse("-+/foo").unwrap();
    assert!(e.flags.contains(ExecFlags::IGNORE_FAILURE));
    assert!(e.flags.contains(ExecFlags::FULL_PRIVS));
}

// ---- ini

#[test]
fn parses_simple() {
    let src = "[Unit]\nDescription=hi\n\n[Service]\nExecStart=/bin/true\n";
    let i = parse("x", src).unwrap();
    assert_eq!(i.last("Unit", "Description"), Some("hi"));
    assert_eq!(i.last("Service", "ExecStart"), Some("/bin/true"));
}

#[test]
fn comments_skipped() {
    let src = "# top\n[Unit]\n; comment\nDescription=hi\n";
    let i = parse("x", src).unwrap();
    assert_eq!(i.last("Unit", "Description"), Some("hi"));
}

#[test]
fn line_continuation() {
    let src = "[Service]\nExecStart=/bin/echo \\\n  hello \\\n  world\n";
    let i = parse("x", src).unwrap();
    assert_eq!(i.last("Service", "ExecStart"), Some("/bin/echo  hello  world"));
}

#[test]
fn empty_resets_list() {
    let src = "[Service]\nEnvironment=A=1\nEnvironment=B=2\nEnvironment=\nEnvironment=C=3\n";
    let i = parse("x", src).unwrap();
    let eff = i.effective_list("Service", "Environment");
    assert_eq!(eff.len(), 1);
    assert_eq!(eff[0].value, "C=3");
}

#[test]
fn errors_on_directive_before_section() {
    let src = "Description=hi\n";
    assert!(parse("x", src).is_err());
}

#[test]
fn errors_on_unterminated_section() {
    let src = "[Unit\n";
    assert!(parse("x", src).is_err());
}

// ---- names

#[test]
fn parses_plain() {
    let n = name("foo.service");
    assert_eq!(n.prefix, "foo");
    assert_eq!(n.instance, None);
    assert_eq!(n.kind, UnitKind::Service);
    assert_eq!(n.to_text(), "foo.service");
}

#[test]
fn parses_template() {
    let n = name("foo@.service");
    assert!(n.is_template());
    assert_eq!(n.to_text(), "foo@.service");
}

#[test]
fn parses_instance() {
    let n = name("foo@bar.service");
    assert!(n.is_instance());
    assert_eq!(n.prefix, "foo");
    assert_eq!(n.instance.as_deref(), Some("bar"));
    assert_eq!(n.template_form().unwrap().to_text(), "foo@.service");
}

#[test]
fn rejects_unknown_suffix() {
    assert!(UnitName::from_str("foo.bogus").is_err());
    assert!(UnitName::from_str("noprefix").is_err());
}

#[test]
fn all_kinds_roundtrip() {
    for k in UnitKind::ALL {
        let n = UnitName::plain("foo", k);
        assert_eq!(UnitName::from_str(&n.to_text()).unwrap(), n);
    }
}

// ---- socket addresses

#[test]
fn parse_port() {
    assert!(matches!(SocketAddrSpec::parse("80").unwrap(), SocketAddrSpec::Port(80)));
}

#[test]
fn parse_path() {
    let s = SocketAddrSpec::parse("/tmp/foo.sock").unwrap();
    assert!(matches!(s, SocketAddrSpec::UnixPath(_)));
}

#[test]
fn parse_v6() {
    let s = SocketAddrSpec::parse("[::1]:8080").unwrap();
    assert!(matches!(s, SocketAddrSpec::Inet(_)));
}

#[test]
fn parse_abstract() {
    let s = SocketAddrSpec::parse("@foo").unwrap();
    assert!(matches!(s, SocketAddrSpec::UnixAbstract(_)));
}

// ---- whole units

#[test]
fn parses_minimal_service() {
    let src = "[Unit]\nDescription=hello\n[Service]\nExecStart=/bin/true\n";
    let p = parsed("foo.service", src);
    assert_eq!(p.unit.description, "hello");
    let UnitTypeData::Service(svc) = &p.unit.kind else {
        panic!()
    };
    assert_eq!(svc.exec_start.len(), 1);
    assert_eq!(svc.exec_start[0].program, "/bin/true");
}

#[test]
fn linux_only_warns_but_loads() {
    let src = "[Service]\nExecStart=/bin/true\nPrivateTmp=yes\nMemoryMax=100M\n";
    let p = parsed("foo.service", src);
    assert!(p.warnings.iter().any(|w| w.message.contains("PrivateTmp")));
    assert!(p.warnings.iter().any(|w| w.message.contains("MemoryMax")));
}

#[test]
fn install_section() {
    let src = "[Service]\nExecStart=/bin/true\n[Install]\nWantedBy=default.target multi-user.target\n";
    let p = parsed("foo.service", src);
    assert_eq!(p.unit.install.wanted_by.len(), 2);
}

#[test]
fn timer_oncalendar() {
    let src = "[Timer]\nOnCalendar=daily\nPersistent=yes\n";
    let p = parsed("foo.timer", src);
    let UnitTypeData::Timer(t) = &p.unit.kind else {
        panic!()
    };
    assert_eq!(t.on_calendar.len(), 1);
    assert!(t.persistent);
}

#[test]
fn socket_listen_stream() {
    let src = "[Socket]\nListenStream=/tmp/x.sock\nAccept=yes\n";
    let p = parsed("foo.socket", src);
    let UnitTypeData::Socket(s) = &p.unit.kind else {
        panic!()
    };
    assert!(s.accept);
    assert_eq!(s.listen.len(), 1);
}

#[test]
fn path_watch() {
    let src = "[Path]\nPathChanged=/tmp/foo\n[Install]\nWantedBy=default.target\n";
    let p = parsed("foo.path", src);
    let UnitTypeData::Path(pa) = &p.unit.kind else {
        panic!()
    };
    assert_eq!(pa.watches.len(), 1);
}

// ---- what parsing keeps

#[test]
fn rendered_file_parses_back() {
    let src = "# note\n\n[Unit]\nDescription=a \\\n  b\n\n[Service]\nExecStart=/bin/x\nExecStart=\nExecStart=/bin/y\n";
    let first = match parse("x.service", src) {
        Ok(ini) => ini,
        Err(e) => panic!("{}", e.message()),
    };
    let second = match parse("x.service", &render_ini(&first)) {
        Ok(ini) => ini,
        Err(e) => panic!("{}", e.message()),
    };
    assert_eq!(first.len(), second.len());
    for i in 0..first.len() {
        let (a, b) = (first.section(i), second.section(i));
        assert_eq!(a.name, b.name);
        let pairs = |s: &systeml::unit::ini::Section| -> Vec<(String, String)> {
            s.entries.iter().map(|e| (e.key.clone(), e.value.clone())).collect()
        };
        assert_eq!(pairs(a), pairs(b));
    }
    let kept = second.effective_list("Service", "ExecStart");
    assert_eq!(kept.len(), 1);
    assert_eq!(kept[0].value, "/bin/y");
}

#[test]
fn values_without_reset_all_count() {
    let ini = match parse("x.service", "[Service]\nExecStart=/bin/x\nExecStart=/bin/y\n") {
        Ok(ini) => ini,
        Err(e) => panic!("{}", e.message()),
    };
    assert_eq!(ini.effective_list("Service", "ExecStart").len(), 2);
}

#[test]
fn linux_only_socket_directive_never_errors() {
    let p = parsed("x.socket", "[Socket]\nListenStream=80\nPassCredentials=perhaps\n");
    assert_eq!(p.warnings.len(), 1);
    assert_eq!(p.warnings[0].kind, WarningKind::LinuxOnly);
    assert_eq!(p.warnings[0].line, 3);
}

#[test]
fn unknown_directive_warns() {
    for (n, section) in [
        ("x.service", "Unit"),
        ("x.service", "Service"),
        ("x.service", "Install"),
        ("x.socket", "Socket"),
        ("x.timer", "Timer"),
        ("x.path", "Path"),
    ] {
        let src = format!("[{section}]\nNoSuchDirective=1\n");
        let p = parsed(n, &src);
        assert_eq!(p.warnings.len(), 1, "{section}");
        assert_eq!(p.warnings[0].kind, WarningKind::Unknown);
        assert_eq!(p.warnings[0].line, 2);
    }
}

#[test]
fn cat_is_the_file_itself() {
    let source = "# note\n[Service]\nExecStart=/bin/true\nPrivateTmp=yes\n";
    match parse_unit_str(name("foo.service"), source, None) {
        Ok(p) => assert_eq!(p.unit.render_cat(), source),
        Err(e) => panic!("{}", e.message()),
    }
}

#[test]
fn linux_only_listeners_warn() {
    let source = "[Unit]\nJoinsNamespaceOf=b.service\n\
                  [Socket]\nListenNetlink=route 1\nListenMessageQueue=/q\nListenUSBFunction=/u\n";
    let p = match parse_unit_str(name("x.socket"), source, None) {
        Ok(p) => p,
        Err(e) => panic!("{}", e.message()),
    };
    assert_eq!(p.warnings.len(), 4);
    assert!(p.warnings.iter().all(|w| w.kind == WarningKind::LinuxOnly));
    assert!(p.warnings[0].message.contains("[Unit] JoinsNamespaceOf="));
    assert!(p.warnings[1].message.contains("[Socket] ListenNetlink="));
    assert_eq!(p.warnings[3].line, 6);
    let UnitTypeData::Socket(s) = &p.unit.kind else {
        panic!()
    };
    assert_eq!(s.listen.len(), 3);
    assert_eq!(s.passthrough.len(), 3);
}
