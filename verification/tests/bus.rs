//! The D-Bus surface.

use systeml::bus::events::{forward, Signal};
use systeml::bus::manager_iface::{
    convert_changes, get_unit, glob_match, installed_jobs, list_units, list_units_by_patterns,
    load_state_str, load_unit, parse_mode, parse_name, parse_names, reload_or_restart,
    try_restart, BusError, UnitAction,
};
use systeml::bus::object_path::{default_socket_path, encode_path_component, unit_object_path};
use systeml::bus::service_iface::{
    duration_us, exec_start, main_pid, restart_property, timing_property, type_property, Timing,
};
use systeml::bus::unit_iface::{can_reload, can_start, can_stop, names, relation, Relation};
use systeml::deps::job::{JobId, JobMode, JobOutcome};
use systeml::runtime::install::{EnableChanges, UnitFileChange};
use systeml::runtime::manager::{Manager, UnitEvent};
use systeml::runtime::state::{ActiveState, LoadState};
use systeml::unit::duration::{SdDuration, TimeSpan};
use systeml::unit::load::LoadedUnit;
use systeml::unit::name::{UnitKind, UnitName};
use systeml::unit::spec::parse_unit_str;

fn name(s: &str) -> UnitName {
    UnitName::from_str(s).unwrap()
}

/// A manager with a single `hello.service` unit.
fn fake_manager() -> Manager {
    let mut m = Manager::new();
    let parsed = match parse_unit_str(
        name("hello.service"),
        "[Unit]\nDescription=Hello fixture\nAfter=net.target\nRefuseManualStop=yes\n\
         [Service]\nType=notify-reload\nExecStart=-/bin/echo hi\nExecReload=/bin/r\n\
         [Install]\nWantedBy=default.target\nAlias=hi.service\n",
        None,
    ) {
        Ok(p) => p,
        Err(e) => panic!("{}", e.message()),
    };
    let lu = LoadedUnit { unit: parsed.unit, warnings: parsed.warnings, from_template: false };
    m.insert_loaded(name("hello.service"), lu);
    m
}

#[test]
fn unit_object_path_basic() {
    let n = UnitName::plain("foo", UnitKind::Service);
    assert_eq!(unit_object_path(&n), "/org/freedesktop/systemd1/unit/foo_2eservice");
}

#[test]
fn unit_object_path_instance() {
    let n = UnitName::instance("getty", "tty1", UnitKind::Service);
    assert_eq!(
        unit_object_path(&n),
        "/org/freedesktop/systemd1/unit/getty_40tty1_2eservice"
    );
}

#[test]
fn unit_object_path_dashes() {
    let n = name("dev-disk-by.device");
    assert_eq!(
        unit_object_path(&n),
        "/org/freedesktop/systemd1/unit/dev_2ddisk_2dby_2edevice"
    );
}

#[test]
fn unit_object_path_underscore_passthrough() {
    let n = name("foo_bar.service");
    assert_eq!(
        unit_object_path(&n),
        "/org/freedesktop/systemd1/unit/foo_bar_2eservice"
    );
}

#[test]
fn escaping_goes_by_bytes() {
    assert_eq!(encode_path_component("\u{e4}/A9"), "_c3_a4_2fA9");
    assert_eq!(encode_path_component(""), "");
    assert_eq!(default_socket_path(&None), "/tmp/systeml/private");
    assert_eq!(default_socket_path(&Some("/run/u".to_owned())), "/run/u/systeml/private");
}

#[test]
fn parse_modes() {
    assert!(matches!(parse_mode("replace"), Ok(JobMode::Replace)));
    assert!(matches!(parse_mode(""), Ok(JobMode::Replace)));
    assert!(matches!(parse_mode("isolate"), Ok(JobMode::Isolate)));
    assert!(parse_mode("nonsense").is_err());
    assert_eq!(
        parse_mode("nonsense"),
        Err(BusError::InvalidArgs("unknown job mode \"nonsense\"".to_owned()))
    );
}

#[test]
fn glob_basic() {
    assert!(glob_match("*", "foo.service"));
    assert!(glob_match("*.service", "foo.service"));
    assert!(!glob_match("*.timer", "foo.service"));
    assert!(glob_match("foo?bar", "fooXbar"));
    assert!(!glob_match("foo", "fo"));
    assert!(!glob_match("?", ""));
}

#[test]
fn names_are_read() {
    assert_eq!(parse_name("a.service"), Ok(name("a.service")));
    match parse_name("nope") {
        Err(BusError::InvalidArgs(m)) => {
            assert!(m.starts_with("bad unit name \"nope\": invalid unit name \"nope\": "));
        }
        other => panic!("{:?}", other),
    }
    assert!(parse_names(&vec!["a.service".to_owned(), "x".to_owned()]).is_err());
    assert_eq!(
        parse_names(&vec!["a.service".to_owned(), "b.timer".to_owned()]).unwrap().len(),
        2
    );
}

#[test]
fn list_units_round_trips() {
    let m = fake_manager();
    let units = list_units(&m);
    assert_eq!(units.len(), 1);
    let entry = &units[0];
    assert_eq!(entry.name, "hello.service");
    assert_eq!(entry.description, "Hello fixture");
    assert_eq!(entry.load_state, "loaded");
    assert_eq!(entry.active_state, "inactive");
    assert_eq!(entry.unit_path, "/org/freedesktop/systemd1/unit/hello_2eservice");
    assert_eq!(entry.job_path, "/");
}

#[test]
fn listing_by_patterns() {
    let m = fake_manager();
    let s = |v: &[&str]| v.iter().map(|x| (*x).to_owned()).collect::<Vec<String>>();
    assert_eq!(list_units_by_patterns(&m, &s(&[]), &s(&[])).len(), 1);
    assert_eq!(list_units_by_patterns(&m, &s(&["active"]), &s(&[])).len(), 0);
    assert_eq!(list_units_by_patterns(&m, &s(&["inactive"]), &s(&["h*"])).len(), 1);
    assert_eq!(list_units_by_patterns(&m, &s(&[]), &s(&["x*"])).len(), 0);
}

#[test]
fn lookups() {
    let mut m = fake_manager();
    assert!(get_unit(&m, "hello.service").is_ok());
    assert_eq!(
        get_unit(&m, "no.service"),
        Err(BusError::Failed("unit not loaded: no.service".to_owned()))
    );
    assert!(load_unit("no.service").is_ok());
    assert_eq!(load_state_str(LoadState::NotFound), "not-found");
    let n = name("hello.service");
    assert_eq!(reload_or_restart(&m, &n), UnitAction::Restart);
    assert_eq!(try_restart(&m, &n), UnitAction::Nothing);
    m.mark_state(&n, ActiveState::Active, "running");
    assert_eq!(reload_or_restart(&m, &n), UnitAction::Reload);
    assert_eq!(try_restart(&m, &n), UnitAction::Restart);
    assert_eq!(installed_jobs(&m), 0);
}

#[test]
fn unit_properties() {
    let m = fake_manager();
    let n = name("hello.service");
    assert_eq!(names(&m, &n), vec!["hello.service".to_owned(), "hi.service".to_owned()]);
    assert_eq!(relation(&m, &n, Relation::After), vec!["net.target".to_owned()]);
    assert_eq!(relation(&m, &n, Relation::WantedBy), vec!["default.target".to_owned()]);
    assert!(relation(&m, &name("no.service"), Relation::Wants).is_empty());
    assert!(can_start(&m, &n));
    assert!(!can_stop(&m, &n));
    assert!(can_reload(&m, &n));
    assert!(!can_reload(&m, &name("no.service")));
}

#[test]
fn service_properties() {
    let m = fake_manager();
    let n = name("hello.service");
    assert_eq!(type_property(&m, &n), "notify-reload");
    assert_eq!(restart_property(&m, &n), "no");
    assert_eq!(type_property(&m, &name("no.service")), "simple");
    assert_eq!(timing_property(&m, &n, Timing::Watchdog), 0);
    assert_eq!(main_pid(&m, &n), 0);
    let es = exec_start(&m, &n);
    assert_eq!(es[0].path, "/bin/echo");
    assert!(es[0].ignore_failure);
    assert_eq!(duration_us(SdDuration::Infinity), u64::MAX);
    assert_eq!(duration_us(SdDuration::Finite(TimeSpan::from_millis(3))), 3000);
}

#[test]
fn signals() {
    let u = name("a.service");
    let path = "/org/freedesktop/systemd1/unit/a_2eservice".to_owned();
    assert_eq!(
        forward(&UnitEvent::UnitNew(name("a.service"))),
        Some(Signal::UnitNew { id: "a.service".to_owned(), path: path.clone() })
    );
    assert_eq!(
        forward(&UnitEvent::JobRemoved {
            id: JobId(7),
            unit: u,
            outcome: JobOutcome::DependencyFailed
        }),
        Some(Signal::JobRemoved {
            id: 7,
            path,
            unit: "a.service".to_owned(),
            result: "dependency".to_owned()
        })
    );
    assert_eq!(
        forward(&UnitEvent::StateChanged {
            unit: name("a.service"),
            active: ActiveState::Active,
            sub: "running".to_owned()
        }),
        None
    );
}

#[test]
fn change_records() {
    let c = EnableChanges {
        carries_install_info: true,
        changes: vec![UnitFileChange {
            change_type: "symlink".to_owned(),
            target: "/t".to_owned(),
            source: "/s".to_owned(),
        }],
    };
    assert_eq!(
        convert_changes(&c),
        vec![("symlink".to_owned(), "/t".to_owned(), "/s".to_owned())]
    );
}
