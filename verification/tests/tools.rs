//! The command line tools: the journal and the client.

use systeml::bus::manager_iface::UnitListEntry;
use systeml::client;
use systeml::client::{Printed, UnitCommand};
use systeml::ctl::{
    allows_imperative, default_socket_path, ensure_runtime_dir, file_line, files_header,
    is_active_code, is_enabled_code, print_changes, print_status, refuse_imperative, shown_file,
    show_properties, truncate, unit_line, units_header, StatusReport,
};
use systeml::journal::{
    emit, follow_step, followed_line, initial_tail, journal_dir, list_units, month_abbrev,
    no_files_text, pad, parse_format, replay, short_ts, split_timestamp, stream_file, streams,
    FollowStep, Format,
};

fn strings(v: &[&str]) -> Vec<String> {
    v.iter().map(|x| (*x).to_owned()).collect()
}

#[test]
fn output_formats() {
    assert_eq!(parse_format(""), Ok(Format::Short));
    assert_eq!(parse_format("short-iso"), Ok(Format::ShortIso));
    assert_eq!(
        parse_format("x"),
        Err("unknown --output format \"x\" (try short, short-iso, cat, json)".to_owned())
    );
}

#[test]
fn timestamps_are_split_off() {
    let (ts, msg) = split_timestamp("2026-04-27T10:30:05Z hello world");
    assert_eq!(ts, Some(("2026-04-27T10:30:05Z".to_owned(), (4, 27, 10, 30, 5))));
    assert_eq!(msg, "hello world");
    assert_eq!(split_timestamp("no stamp"), (None, "no stamp".to_owned()));
    assert_eq!(split_timestamp("word"), (None, "word".to_owned()));
    assert_eq!(short_ts((4, 7, 1, 2, 59)), "Apr 07 01:02:59");
    assert_eq!(month_abbrev(13), "???");
}

#[test]
fn lines_are_rendered() {
    let raw = "2026-04-27T10:30:05.25+02:00 hi";
    assert_eq!(emit("a.service", "out", raw, Format::Short), "Apr 27 10:30:05 a.service[out]: hi");
    assert_eq!(
        emit("a.service", "err", raw, Format::ShortIso),
        "2026-04-27T10:30:05.25+02:00 a.service[err]: hi"
    );
    assert_eq!(emit("a.service", "out", raw, Format::Cat), "hi");
    assert_eq!(
        emit("a.service", "out", "say \"x\"\t", Format::Json),
        "{\"ts\":null,\"unit\":\"a.service\",\"stream\":\"out\",\"line\":\"say \\\"x\\\"\\t\"}"
    );
    assert_eq!(
        emit("a.service", "out", raw, Format::Json),
        "{\"ts\":\"2026-04-27T10:30:05.25+02:00\",\"unit\":\"a.service\",\"stream\":\"out\",\"line\":\"hi\"}"
    );
    assert_eq!(emit("a.service", "out", "plain", Format::Short), "a.service[out]: plain");
}

#[test]
fn replaying() {
    let c = "one\ntwo\r\nthree\n";
    assert_eq!(replay("u", "out", c, None, Format::Cat), strings(&["one", "two", "three"]));
    assert_eq!(replay("u", "out", c, Some(2), Format::Cat), strings(&["two", "three"]));
    assert_eq!(replay("u", "out", c, Some(9), Format::Cat).len(), 3);
    assert!(initial_tail("u", "out", c, None, Format::Cat).is_empty());
    assert_eq!(initial_tail("u", "out", c, Some(1), Format::Cat), strings(&["three"]));
    assert_eq!(followed_line("u", "out", "x\r\r\n", Format::Cat), "x");
}

#[test]
fn following() {
    assert_eq!(follow_step(5, 5), FollowStep::Wait(5));
    assert_eq!(follow_step(5, 9), FollowStep::ReadFrom(5));
    assert_eq!(follow_step(5, 3), FollowStep::ReadFrom(0));
    assert_eq!(follow_step(5, 0), FollowStep::Wait(0));
}

#[test]
fn listing_streams() {
    let m = streams(&strings(&["b.service.err.log", "a.service.out.log", "b.service.out.log", "x"]));
    let lines = list_units(&m);
    assert_eq!(lines.len(), 3);
    assert_eq!(lines[0], format!("{:<48} STREAMS", "UNIT"));
    assert_eq!(lines[1], format!("{:<48} out", "a.service"));
    assert_eq!(lines[2], format!("{:<48} out,err", "b.service"));
    assert!(list_units(&streams(&vec![])).is_empty());
    assert_eq!(journal_dir(&Some("/s".to_owned())), Ok("/s/journal".to_owned()));
    assert!(journal_dir(&None).is_err());
    assert_eq!(stream_file("/s/journal", "a.service", "err"), "/s/journal/a.service.err.log");
    assert_eq!(
        no_files_text(&strings(&["a", "b"])),
        "journalctl: no journal files for unit(s): a, b"
    );
    assert_eq!(pad("abc", 2), "abc");
}

#[test]
fn exit_codes() {
    assert_eq!(is_active_code(&strings(&["active", "reloading"])), 0);
    assert_eq!(is_active_code(&strings(&["active", "failed"])), 3);
    assert_eq!(is_enabled_code(&strings(&["enabled", "static"])), 0);
    assert_eq!(is_enabled_code(&strings(&["enabled", "disabled"])), 1);
    assert_eq!(is_enabled_code(&strings(&["not-found", "disabled"])), 4);
}

#[test]
fn tables() {
    assert_eq!(truncate("abcdef", 3), "abc");
    assert_eq!(truncate("ab", 3), "ab");
    assert_eq!(
        units_header(),
        format!("{:<35} {:<8} {:<10} {:<10} DESCRIPTION", "UNIT", "LOAD", "ACTIVE", "SUB")
    );
    assert_eq!(
        unit_line("a.service", "loaded", "active", "running", "A thing"),
        format!("{:<35} {:<8} {:<10} {:<10} {}", "a.service", "loaded", "active", "running", "A thing")
    );
    assert_eq!(files_header(), format!("{:<45} STATE", "UNIT FILE"));
    assert_eq!(shown_file("/x/a.service"), "a.service");
    assert_eq!(file_line("a.service", "static"), format!("{:<45} static", "a.service"));
}

#[test]
fn messages() {
    let c = |a: &str| (a.to_owned(), "/t".to_owned(), "/s".to_owned());
    assert_eq!(
        print_changes(&vec![c("symlink"), c("unlink"), c("odd")]),
        strings(&["Created symlink /t -> /s", "Removed /t", "odd /t /s"])
    );
    assert!(allows_imperative(&Some("1".to_owned())));
    assert!(!allows_imperative(&None));
    let r = refuse_imperative("enable", &strings(&["a", "b"]));
    assert_eq!(r.len(), 11);
    assert_eq!(r[0], "systemlctl: refusing to enable unit(s): a, b");
    let s = StatusReport {
        id: "a.service".to_owned(),
        description: "A".to_owned(),
        load: "loaded".to_owned(),
        active: "active".to_owned(),
        sub: "running".to_owned(),
        fragment: "/f".to_owned(),
        unit_file: "static".to_owned(),
    };
    assert_eq!(
        print_status(&s),
        strings(&[
            "\u{25cf} a.service - A",
            "     Loaded: loaded (/f; static)",
            "     Active: active (running)",
            "",
        ])
    );
    assert_eq!(show_properties("a.timer").len(), 7);
    assert_eq!(show_properties("a.service").len(), 9);
    assert_eq!(ensure_runtime_dir(&None, "/tmp", 501), "/tmp/systeml-501");
    assert_eq!(
        default_socket_path(&Some("/run/u".to_owned()), "/tmp", 501),
        "/run/u/systeml/private"
    );
}

// ---- commands of the client

fn printed(out: &[&str], err: &[&str], code: u8) -> Printed {
    Printed { out: strings(out), err: strings(err), code }
}

#[test]
fn jobs_are_asked_for() {
    let all = [
        (UnitCommand::Start, "StartUnit", "Started a.service"),
        (UnitCommand::Stop, "StopUnit", "Stopped a.service"),
        (UnitCommand::Restart, "RestartUnit", "Restarted a.service"),
        (UnitCommand::Reload, "ReloadUnit", "Reloaded a.service"),
    ];
    for (command, method, said) in all {
        assert_eq!(command.method(), method);
        assert_eq!(command.done("a.service", false), printed(&[said], &[], 0));
        assert_eq!(command.done("a.service", true), printed(&[], &[], 0));
    }
}

#[test]
fn changes_are_told() {
    let made = vec![("unlink".to_owned(), "/c/a".to_owned(), String::new())];
    assert_eq!(client::changed(&made), printed(&["Removed /c/a"], &[], 0));
    assert_eq!(client::enabled(true, &made, false), printed(&["Removed /c/a"], &[], 0));
    let warning = "warning: none of the listed units carry [Install] info";
    assert_eq!(client::enabled(false, &Vec::new(), false), printed(&[], &[warning], 0));
    assert_eq!(client::enabled(false, &Vec::new(), true), printed(&[], &[], 0));
    let r = client::refused("enable", &strings(&["a.service"]));
    assert_eq!(r.code, 2);
    assert!(r.out.is_empty());
    assert_eq!(r.err[0], "systemlctl: refusing to enable unit(s): a.service");
}

#[test]
fn states_are_told() {
    let states = strings(&["active", "failed"]);
    assert_eq!(client::is_active(states), printed(&["active", "failed"], &[], 3));
    assert_eq!(client::is_active(strings(&["reloading"])), printed(&["reloading"], &[], 0));
    let answers = vec![Some("enabled".to_owned()), None];
    assert_eq!(client::is_enabled(&answers), printed(&["enabled", "not-found"], &[], 4));
    assert_eq!(
        client::is_enabled(&vec![Some("disabled".to_owned())]),
        printed(&["disabled"], &[], 1)
    );
    assert_eq!(client::is_system_running(), printed(&["running"], &[], 0));
}

#[test]
fn fragments_are_shown() {
    assert_eq!(
        client::cat("a.service", "/u/a.service", &Ok("[Unit]\n".to_owned())),
        printed(&["# /u/a.service", "[Unit]\n"], &[], 0)
    );
    assert_eq!(
        client::cat("a.service", "/u/a.service", &Err("gone".to_owned())),
        printed(&["# /u/a.service", ""], &["systemlctl: /u/a.service: gone"], 0)
    );
    assert_eq!(
        client::cat("a.service", "", &Ok(String::new())),
        printed(&[], &["systemlctl: a.service: no fragment path"], 0)
    );
}

#[test]
fn values_are_shown() {
    let mut values: Vec<Option<String>> = vec![None; 7];
    values[0] = Some("a.timer".to_owned());
    assert_eq!(
        client::show("a.timer", &values),
        printed(
            &[
                "# a.timer",
                "Id=a.timer",
                "Description=",
                "LoadState=",
                "ActiveState=",
                "SubState=",
                "FragmentPath=",
                "UnitFileState=",
                "",
            ],
            &[],
            0
        )
    );
}

#[test]
fn tables_are_printed() {
    let row = UnitListEntry {
        name: "a.service".to_owned(),
        description: "A".to_owned(),
        load_state: "loaded".to_owned(),
        active_state: "active".to_owned(),
        sub_state: "running".to_owned(),
        follower: String::new(),
        unit_path: "/u".to_owned(),
        job_id: 0,
        job_type: String::new(),
        job_path: "/".to_owned(),
    };
    let r = client::list_units(&vec![row]);
    assert_eq!(r.out[0], units_header());
    assert_eq!(r.out[1], unit_line("a.service", "loaded", "active", "running", "A"));
    assert_eq!((r.out.len(), r.err.len(), r.code), (2, 0, 0));
    let r = client::list_unit_files(&vec![("/u/a.service".to_owned(), "static".to_owned())]);
    assert_eq!(r.out, vec![files_header(), file_line("a.service", "static")]);
}
