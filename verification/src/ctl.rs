//! `systemctl`-compatible command line: what is printed, and the exit codes.
//!
//! Exit codes follow `man systemctl`'s "Exit Status":
//! - 0: success.
//! - 1: failure (other), or `is-enabled` says disabled.
//! - 3: `is-active` says the unit is inactive.
//! - 4: not-found / does-not-exist.

use crate::bus::object_path;
use crate::bus::object_path::{SERVICE_INTERFACE, UNIT_INTERFACE};
use crate::journal;
use crate::journal::pad;
use crate::number;
use crate::number::decimal_string;
use crate::paths;
use crate::paths::{file_name, join};
use crate::text;
use crate::text::{chars_of, ends_with, join_by, same};
use vstd::prelude::*;

verus! {

// ---------------------------------------------------------------------
// Exit codes
// ---------------------------------------------------------------------

/// Whether a state counts as active.
pub open spec fn counts_as_active(s: Seq<char>) -> bool {
    s == "active"@ || s == "reloading"@
}

/// Whether a state counts as enabled.
pub open spec fn counts_as_enabled(s: Seq<char>) -> bool {
    s == "enabled"@ || s == "static"@ || s == "alias"@
}

/// The exit code of `is-active`: 0 if all units are active, 3 otherwise.
pub fn is_active_code(states: &Vec<String>) -> (r: u8)
    ensures
        r == if forall|i: int|
            0 <= i < states@.len() ==> counts_as_active(#[trigger] states@[i]@) {
            0u8
        } else {
            3u8
        },
{
    let mut i: usize = 0;
    while i < states.len()
        invariant
            i <= states.len(),
            forall|j: int| 0 <= j < i ==> counts_as_active(#[trigger] states@[j]@),
        decreases states.len() - i,
    {
        let s = states[i].as_str();
        if !(same(s, "active") || same(s, "reloading")) {
            return 3;
        }
        i = i + 1;
    }
    0
}

/// The exit code of `is-enabled`: 0 if all units are enabled; otherwise 4 if
/// one is not found, and 1 if not.
pub open spec fn enabled_code(states: Seq<Seq<char>>) -> u8
    decreases states.len(),
{
    if states.len() == 0 {
        0
    } else if enabled_code(states.drop_last()) == 4 || states.last() == "not-found"@ {
        4
    } else if enabled_code(states.drop_last()) == 1 || !counts_as_enabled(states.last()) {
        1
    } else {
        0
    }
}

/// The exit code of `is-enabled`.
pub fn is_enabled_code(states: &Vec<String>) -> (r: u8)
    ensures
        r == enabled_code(text::texts(states@)),
{
    let ghost all = text::texts(states@);
    let mut code: u8 = 0;
    let mut i: usize = 0;
    while i < states.len()
        invariant
            i <= states.len(),
            all == text::texts(states@),
            code == enabled_code(all.take(i as int)),
        decreases states.len() - i,
    {
        proof {
            assert(all.take(i + 1).drop_last() =~= all.take(i as int));
            assert(all.take(i + 1).last() == states@[i as int]@);
        }
        let s = states[i].as_str();
        if code == 4 || same(s, "not-found") {
            code = 4;
        } else if code == 1 || !(same(s, "enabled") || same(s, "static") || same(s, "alias")) {
            code = 1;
        }
        i = i + 1;
    }
    proof {
        assert(all.take(all.len() as int) =~= all);
    }
    code
}

/// `is-enabled` succeeds just where every unit is enabled, and says 4 just
/// where one is not found.
pub proof fn enabled_code_tells(states: Seq<Seq<char>>)
    ensures
        (enabled_code(states) == 0) == (forall|i: int|
            0 <= i < states.len() ==> counts_as_enabled(#[trigger] states[i])),
        (enabled_code(states) == 4) == states.contains("not-found"@),
    decreases states.len(),
{
    reveal_strlit("not-found");
    reveal_strlit("enabled");
    reveal_strlit("static");
    reveal_strlit("alias");
    assert("not-found"@[0] == 'n' && "enabled"@[0] == 'e');
    assert("static"@[0] == 's' && "alias"@[0] == 'a');
    if states.len() > 0 {
        let rest = states.drop_last();
        enabled_code_tells(rest);
        assert(states[states.len() - 1] == states.last());
        if forall|i: int| 0 <= i < states.len() ==> counts_as_enabled(#[trigger] states[i]) {
            assert forall|i: int| 0 <= i < rest.len() implies counts_as_enabled(
                #[trigger] rest[i],
            ) by {
                assert(rest[i] == states[i]);
            }
        }
        if enabled_code(states) == 0 {
            assert forall|i: int| 0 <= i < states.len() implies counts_as_enabled(
                #[trigger] states[i],
            ) by {
                if i < rest.len() {
                    assert(rest[i] == states[i]);
                }
            }
        }
        if rest.contains("not-found"@) {
            assert(states[rest.index_of("not-found"@)] == "not-found"@);
        }
        if states.contains("not-found"@) {
            let k = states.index_of("not-found"@);
            assert(states[k] == "not-found"@);
            if k < rest.len() {
                assert(rest[k] == "not-found"@);
            }
        }
    }
}

// ---------------------------------------------------------------------
// Tables
// ---------------------------------------------------------------------

/// Whether a text can be cut after some bytes: it is no longer, or a character
/// ends there.
pub open spec fn can_cut(s: Seq<char>, n: nat) -> bool {
    let bs = vstd::utf8::encode_utf8(s);
    bs.len() <= n || vstd::utf8::is_char_boundary(bs, n as int)
}

/// The bytes of a text, at most so many.
pub open spec fn cut_bytes(s: Seq<char>, n: nat) -> Seq<u8> {
    let bs = vstd::utf8::encode_utf8(s);
    if bs.len() <= n {
        bs
    } else {
        bs.take(n as int)
    }
}

/// A text of at most so many bytes.
pub fn truncate<'a>(s: &'a str, n: usize) -> (r: &'a str)
    requires
        can_cut(s@, n as nat),
    ensures
        vstd::utf8::encode_utf8(r@) == cut_bytes(s@, n as nat),
{
    if s.as_bytes().len() <= n {
        s
    } else {
        let (a, _) = s.split_at(n);
        proof {
            let bs = vstd::utf8::encode_utf8(s@);
            assert(bs.subrange(0, n as int) =~= bs.take(n as int));
        }
        a
    }
}

/// The header of `list-units`.
pub open spec fn units_head() -> Seq<char> {
    journal::padded("UNIT"@, 35) + " "@ + journal::padded("LOAD"@, 8) + " "@ + journal::padded(
        "ACTIVE"@,
        10,
    ) + " "@ + journal::padded("SUB"@, 10) + " DESCRIPTION"@
}

/// The header of `list-units`.
pub fn units_header() -> (r: String)
    ensures
        r@ == units_head(),
{
    let mut out = pad("UNIT", 35);
    out.append(" ");
    out.append(pad("LOAD", 8).as_str());
    out.append(" ");
    out.append(pad("ACTIVE", 10).as_str());
    out.append(" ");
    out.append(pad("SUB", 10).as_str());
    out.append(" DESCRIPTION");
    out
}

/// Whether this is the line of `list-units` for a unit: its name is cut to the
/// width of its column.
pub open spec fn is_unit_line(
    line: Seq<char>,
    unit: Seq<char>,
    load: Seq<char>,
    active: Seq<char>,
    sub: Seq<char>,
    description: Seq<char>,
) -> bool {
    exists|cut: Seq<char>|
        vstd::utf8::encode_utf8(cut) == cut_bytes(unit, 35) && line == #[trigger] journal::padded(
            cut,
            35,
        ) + " "@ + journal::padded(load, 8) + " "@ + journal::padded(active, 10) + " "@
            + journal::padded(sub, 10) + " "@ + description
}

/// A line of `list-units`.
pub fn unit_line(unit: &str, load: &str, active: &str, sub: &str, description: &str) -> (r: String)
    requires
        can_cut(unit@, 35),
    ensures
        is_unit_line(r@, unit@, load@, active@, sub@, description@),
{
    let cut = truncate(unit, 35);
    let mut out = pad(cut, 35);
    out.append(" ");
    out.append(pad(load, 8).as_str());
    out.append(" ");
    out.append(pad(active, 10).as_str());
    out.append(" ");
    out.append(pad(sub, 10).as_str());
    out.append(" ");
    out.append(description);
    proof {
        assert(out@ == journal::padded(cut@, 35) + " "@ + journal::padded(load@, 8) + " "@
            + journal::padded(active@, 10) + " "@ + journal::padded(sub@, 10) + " "@
            + description@);
    }
    out
}

/// The header of `list-unit-files`.
pub open spec fn files_head() -> Seq<char> {
    journal::padded("UNIT FILE"@, 45) + " STATE"@
}

/// The header of `list-unit-files`.
pub fn files_header() -> (r: String)
    ensures
        r@ == files_head(),
{
    let mut out = pad("UNIT FILE", 45);
    out.append(" STATE");
    out
}

/// What `list-unit-files` shows of a path: its final component, or all of it
/// where it has none.
pub open spec fn base_name(path: Seq<char>) -> Seq<char> {
    match paths::file_name_of(path) {
        Some(f) => f,
        None => path,
    }
}

/// What `list-unit-files` shows of a path.
pub fn shown_file(path: &str) -> (r: String)
    ensures
        r@ == base_name(path@),
{
    match file_name(path) {
        Some(f) => f,
        None => path.to_owned(),
    }
}

/// Whether this is the line of `list-unit-files` for a file: what is shown of
/// its path is cut to the width of its column.
pub open spec fn is_file_line(line: Seq<char>, base: Seq<char>, state: Seq<char>) -> bool {
    exists|cut: Seq<char>|
        vstd::utf8::encode_utf8(cut) == cut_bytes(base, 45) && line == #[trigger] journal::padded(
            cut,
            45,
        ) + " "@ + state
}

/// A line of `list-unit-files`, given what is shown of the path.
pub fn file_line(base: &str, state: &str) -> (r: String)
    requires
        can_cut(base@, 45),
    ensures
        is_file_line(r@, base@, state@),
{
    let cut = truncate(base, 45);
    let mut out = pad(cut, 45);
    out.append(" ");
    out.append(state);
    proof {
        assert(out@ == journal::padded(cut@, 45) + " "@ + state@);
    }
    out
}

// ---------------------------------------------------------------------
// Messages
// ---------------------------------------------------------------------

/// What is printed of a change.
pub open spec fn change_text(kind: Seq<char>, target: Seq<char>, source: Seq<char>) -> Seq<char> {
    if kind == "symlink"@ {
        "Created symlink "@ + target + " -> "@ + source
    } else if kind == "unlink"@ {
        "Removed "@ + target
    } else {
        kind + " "@ + target + " "@ + source
    }
}

fn change_line(kind: &str, target: &str, source: &str) -> (r: String)
    ensures
        r@ == change_text(kind@, target@, source@),
{
    if same(kind, "symlink") {
        let mut out = "Created symlink ".to_owned();
        out.append(target);
        out.append(" -> ");
        out.append(source);
        out
    } else if same(kind, "unlink") {
        let mut out = "Removed ".to_owned();
        out.append(target);
        out
    } else {
        let mut out = kind.to_owned();
        out.append(" ");
        out.append(target);
        out.append(" ");
        out.append(source);
        out
    }
}

/// The lines for some changes.
pub open spec fn change_lines(v: Seq<(String, String, String)>) -> Seq<Seq<char>> {
    v.map_values(|c: (String, String, String)| change_text(c.0@, c.1@, c.2@))
}

/// The lines for some changes.
pub fn print_changes(changes: &Vec<(String, String, String)>) -> (r: Vec<String>)
    ensures
        text::texts(r@) == change_lines(changes@),
{
    let ghost all = change_lines(changes@);
    let mut out: Vec<String> = Vec::new();
    let mut i: usize = 0;
    proof {
        assert(text::texts(out@) =~= all.take(0));
    }
    while i < changes.len()
        invariant
            i <= changes.len(),
            all == change_lines(changes@),
            text::texts(out@) == all.take(i as int),
        decreases changes.len() - i,
    {
        let ghost before = out@;
        let c = &changes[i];
        out.push(change_line(c.0.as_str(), c.1.as_str(), c.2.as_str()));
        proof {
            assert(text::texts(out@) =~= text::texts(before).push(all[i as int]));
            assert(all.take(i + 1) =~= all.take(i as int).push(all[i as int]));
        }
        i = i + 1;
    }
    proof {
        assert(all.take(all.len() as int) =~= all);
    }
    out
}

/// Whether imperative `enable` and `disable` are let through, given the value
/// of `SYSTEML_ALLOW_IMPERATIVE_ENABLE`.
pub fn allows_imperative(var: &Option<String>) -> (r: bool)
    ensures
        r == (text::opt_text(*var) == Some("1"@)),
{
    match var {
        Some(v) => same(v.as_str(), "1"),
        None => false,
    }
}

/// The lines with which `enable` or `disable` is refused.
pub open spec fn refusal(action: Seq<char>, units: Seq<Seq<char>>) -> Seq<Seq<char>> {
    seq![
        "systemlctl: refusing to "@ + action + " unit(s): "@ + text::joined_by(units, ", "@),
        ""@,
        "  home-manager owns enable/disable state for SystemL. To "@ + action + " a unit:"@,
        ""@,
        "    1. Edit your home-manager config so the unit's [Install] section"@,
        "       is "@ + if action == "enable"@ {
            "reachable from a target your machine wants (e.g. WantedBy=timers.target)"@
        } else {
            "removed (or remove the unit declaration entirely)"@
        } + "."@,
        "    2. Run `home-manager switch`."@,
        ""@,
        "  Imperative "@ + action + " would drift from the declarative state and be"@,
        "  overwritten by the next switch. If you really need to bypass this"@,
        "  guard (e.g. for debugging), set SYSTEML_ALLOW_IMPERATIVE_ENABLE=1."@,
    ]
}

/// Refuse `enable` / `disable` when home-manager is the source of truth.
///
/// Units are expected to be installed declaratively. Imperative enabling would
/// create symlinks on disk that the next `home-manager switch` would either
/// tear down or overwrite, causing confusing drift.
pub fn refuse_imperative(action: &str, units: &Vec<String>) -> (r: Vec<String>)
    ensures
        text::texts(r@) == refusal(action@, text::texts(units@)),
{
    let mut out: Vec<String> = Vec::new();
    let mut a = "systemlctl: refusing to ".to_owned();
    a.append(action);
    a.append(" unit(s): ");
    a.append(join_by(units, ", ").as_str());
    out.push(a);
    out.push("".to_owned());
    let mut b = "  home-manager owns enable/disable state for SystemL. To ".to_owned();
    b.append(action);
    b.append(" a unit:");
    out.push(b);
    out.push("".to_owned());
    out.push("    1. Edit your home-manager config so the unit's [Install] section".to_owned());
    let mut c = "       is ".to_owned();
    if same(action, "enable") {
        c.append("reachable from a target your machine wants (e.g. WantedBy=timers.target)");
    } else {
        c.append("removed (or remove the unit declaration entirely)");
    }
    c.append(".");
    out.push(c);
    out.push("    2. Run `home-manager switch`.".to_owned());
    out.push("".to_owned());
    let mut d = "  Imperative ".to_owned();
    d.append(action);
    d.append(" would drift from the declarative state and be");
    out.push(d);
    out.push("  overwritten by the next switch. If you really need to bypass this".to_owned());
    out.push("  guard (e.g. for debugging), set SYSTEML_ALLOW_IMPERATIVE_ENABLE=1.".to_owned());
    proof {
        assert(text::texts(out@) =~= refusal(action@, text::texts(units@)));
    }
    out
}

/// What `status` knows of a unit.
#[derive(Debug, PartialEq, Eq)]
pub struct StatusReport {
    pub id: String,
    pub description: String,
    pub load: String,
    pub active: String,
    pub sub: String,
    pub fragment: String,
    pub unit_file: String,
}

/// The lines of `status`.
pub open spec fn status_text(s: StatusReport) -> Seq<Seq<char>> {
    seq![
        "● "@ + s.id@ + " - "@ + s.description@,
        "     Loaded: "@ + s.load@ + if s.fragment@.len() == 0 {
            ""@
        } else {
            " ("@ + s.fragment@ + "; "@ + s.unit_file@ + ")"@
        },
        "     Active: "@ + s.active@ + " ("@ + s.sub@ + ")"@,
        ""@,
    ]
}

/// The lines of `status`.
pub fn print_status(s: &StatusReport) -> (r: Vec<String>)
    ensures
        text::texts(r@) == status_text(*s),
{
    let mut out: Vec<String> = Vec::new();
    let mut a = "● ".to_owned();
    a.append(s.id.as_str());
    a.append(" - ");
    a.append(s.description.as_str());
    out.push(a);
    let mut b = "     Loaded: ".to_owned();
    b.append(s.load.as_str());
    if chars_of(s.fragment.as_str()).len() > 0 {
        b.append(" (");
        b.append(s.fragment.as_str());
        b.append("; ");
        b.append(s.unit_file.as_str());
        b.append(")");
    }
    proof {
        reveal_strlit("");
        assert(b@ =~= status_text(*s)[1]);
    }
    out.push(b);
    let mut c = "     Active: ".to_owned();
    c.append(s.active.as_str());
    c.append(" (");
    c.append(s.sub.as_str());
    c.append(")");
    out.push(c);
    out.push("".to_owned());
    proof {
        assert(text::texts(out@) =~= status_text(*s));
    }
    out
}

/// The views of a list of pairs of texts.
pub open spec fn str_pairs(v: Seq<(&'static str, &'static str)>) -> Seq<(Seq<char>, Seq<char>)> {
    v.map_values(|p: (&'static str, &'static str)| (p.0@, p.1@))
}

/// The properties that `show` prints of a unit, with their interfaces.
pub open spec fn show_list(unit: Seq<char>) -> Seq<(Seq<char>, Seq<char>)> {
    seq![
        (UNIT_INTERFACE@, "Id"@),
        (UNIT_INTERFACE@, "Description"@),
        (UNIT_INTERFACE@, "LoadState"@),
        (UNIT_INTERFACE@, "ActiveState"@),
        (UNIT_INTERFACE@, "SubState"@),
        (UNIT_INTERFACE@, "FragmentPath"@),
        (UNIT_INTERFACE@, "UnitFileState"@),
    ] + if text::finishes_with(unit, ".service"@) {
        seq![(SERVICE_INTERFACE@, "Type"@), (SERVICE_INTERFACE@, "Restart"@)]
    } else {
        seq![]
    }
}

/// The properties that `show` prints of a unit, with their interfaces.
pub fn show_properties(unit: &str) -> (r: Vec<(&'static str, &'static str)>)
    ensures
        str_pairs(r@) == show_list(unit@),
{
    let mut out: Vec<(&'static str, &'static str)> = Vec::new();
    out.push((UNIT_INTERFACE, "Id"));
    out.push((UNIT_INTERFACE, "Description"));
    out.push((UNIT_INTERFACE, "LoadState"));
    out.push((UNIT_INTERFACE, "ActiveState"));
    out.push((UNIT_INTERFACE, "SubState"));
    out.push((UNIT_INTERFACE, "FragmentPath"));
    out.push((UNIT_INTERFACE, "UnitFileState"));
    let v = chars_of(unit);
    if ends_with(v.as_slice(), ".service") {
        out.push((SERVICE_INTERFACE, "Type"));
        out.push((SERVICE_INTERFACE, "Restart"));
    }
    proof {
        assert(str_pairs(out@) =~= show_list(unit@));
    }
    out
}

// ---------------------------------------------------------------------
// Runtime directory
// ---------------------------------------------------------------------

/// The runtime directory: `$XDG_RUNTIME_DIR`, otherwise a per-uid fallback in
/// the directory for temporary files.
pub open spec fn runtime_dir_of(
    xdg: Option<Seq<char>>,
    temp: Seq<char>,
    uid: u32,
) -> Seq<char> {
    match xdg {
        Some(d) => d,
        None => paths::joined(temp, "systeml-"@ + number::decimal(uid as nat)),
    }
}

/// The runtime directory. Where it is the fallback, it is made for its owner
/// alone, and the variable is set.
pub fn ensure_runtime_dir(xdg: &Option<String>, temp: &str, uid: u32) -> (r: String)
    ensures
        r@ == runtime_dir_of(text::opt_text(*xdg), temp@, uid),
{
    match xdg {
        Some(d) => d.clone(),
        None => {
            let mut name = "systeml-".to_owned();
            name.append(decimal_string(uid as u64).as_str());
            join(temp, name.as_str())
        },
    }
}

/// Where the client finds the daemon's socket.
pub fn default_socket_path(xdg: &Option<String>, temp: &str, uid: u32) -> (r: String)
    ensures
        r@ == client_socket(text::opt_text(*xdg), temp@, uid),
{
    let dir = ensure_runtime_dir(xdg, temp, uid);
    join(dir.as_str(), "systeml/private")
}

/// Where the client looks for the daemon's socket.
pub open spec fn client_socket(xdg: Option<Seq<char>>, temp: Seq<char>, uid: u32) -> Seq<char> {
    paths::joined(runtime_dir_of(xdg, temp, uid), "systeml/private"@)
}

/// The client looks for the socket where the daemon listens, which has
/// `XDG_RUNTIME_DIR` set to its runtime directory.
pub proof fn client_finds_daemon(xdg: Option<Seq<char>>, temp: Seq<char>, uid: u32)
    ensures
        client_socket(xdg, temp, uid) == object_path::socket_path(
            Some(runtime_dir_of(xdg, temp, uid)),
        ),
{
}

} // verus!
