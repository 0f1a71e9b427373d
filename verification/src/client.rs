//! The commands of the client: what each asks of the daemon, what it prints of
//! the answers, and its exit code.

use crate::bus::manager_iface::UnitListEntry;
use crate::ctl;
use crate::ctl::{
    file_line, files_header, is_active_code, is_enabled_code, print_changes, refuse_imperative,
    show_properties, shown_file, unit_line, units_header,
};
use crate::text;
use crate::text::chars_of;
use vstd::prelude::*;

verus! {

/// What a command prints, and its exit code.
#[derive(Debug, PartialEq, Eq)]
pub struct Printed {
    /// The lines of its output.
    pub out: Vec<String>,
    /// The lines of its messages.
    pub err: Vec<String>,
    /// Its exit code.
    pub code: u8,
}

/// A [`Printed`] by its characters.
pub struct PrintedView {
    pub out: Seq<Seq<char>>,
    pub err: Seq<Seq<char>>,
    pub code: u8,
}

impl View for Printed {
    type V = PrintedView;

    open spec fn view(&self) -> PrintedView {
        PrintedView { out: text::texts(self.out@), err: text::texts(self.err@), code: self.code }
    }
}

/// A command that succeeds with these lines.
pub open spec fn printed(out: Seq<Seq<char>>) -> PrintedView {
    PrintedView { out, err: seq![], code: 0 }
}

fn lines(out: Vec<String>) -> (r: Printed)
    ensures
        r@ == printed(text::texts(out@)),
{
    let err: Vec<String> = Vec::new();
    proof {
        assert(text::texts(err@) =~= seq![]);
    }
    Printed { out, err, code: 0 }
}

// ---------------------------------------------------------------------
// Units
// ---------------------------------------------------------------------

/// A command that asks for a job, unit after unit.
#[derive(Debug, Clone, Copy, PartialEq, Eq, Structural)]
pub enum UnitCommand {
    /// Activate units.
    Start,
    /// Deactivate units.
    Stop,
    /// Restart units.
    Restart,
    /// Reload units.
    Reload,
}

/// The method of the manager that a command calls.
pub open spec fn method_of(c: UnitCommand) -> Seq<char> {
    match c {
        UnitCommand::Start => "StartUnit"@,
        UnitCommand::Stop => "StopUnit"@,
        UnitCommand::Restart => "RestartUnit"@,
        UnitCommand::Reload => "ReloadUnit"@,
    }
}

/// What a command says it did to a unit.
pub open spec fn done_text(c: UnitCommand, unit: Seq<char>) -> Seq<char> {
    match c {
        UnitCommand::Start => "Started "@ + unit,
        UnitCommand::Stop => "Stopped "@ + unit,
        UnitCommand::Restart => "Restarted "@ + unit,
        UnitCommand::Reload => "Reloaded "@ + unit,
    }
}

impl UnitCommand {
    /// The method of the manager to call with each unit and the job mode.
    pub fn method(self) -> (r: &'static str)
        ensures
            r@ == method_of(self),
    {
        match self {
            UnitCommand::Start => "StartUnit",
            UnitCommand::Stop => "StopUnit",
            UnitCommand::Restart => "RestartUnit",
            UnitCommand::Reload => "ReloadUnit",
        }
    }

    /// What is printed once a unit's job is queued.
    pub fn done(self, unit: &str, quiet: bool) -> (r: Printed)
        ensures
            r@ == printed(
                if quiet {
                    seq![]
                } else {
                    seq![done_text(self, unit@)]
                },
            ),
    {
        let mut out: Vec<String> = Vec::new();
        if !quiet {
            let mut line = match self {
                UnitCommand::Start => "Started ".to_owned(),
                UnitCommand::Stop => "Stopped ".to_owned(),
                UnitCommand::Restart => "Restarted ".to_owned(),
                UnitCommand::Reload => "Reloaded ".to_owned(),
            };
            line.append(unit);
            out.push(line);
            proof {
                assert(text::texts(out@) =~= seq![done_text(self, unit@)]);
            }
        } else {
            proof {
                assert(text::texts(out@) =~= seq![]);
            }
        }
        lines(out)
    }
}

// ---------------------------------------------------------------------
// Unit files
// ---------------------------------------------------------------------

/// `disable`, `mask` and `unmask`: the changes that were made.
pub fn changed(changes: &Vec<(String, String, String)>) -> (r: Printed)
    ensures
        r@ == printed(ctl::change_lines(changes@)),
{
    lines(print_changes(changes))
}

/// `enable`: the changes that were made, and a warning where no unit carries
/// `[Install]` info.
pub fn enabled(carries: bool, changes: &Vec<(String, String, String)>, quiet: bool) -> (r: Printed)
    ensures
        r@ == (PrintedView {
            err: if carries || quiet {
                seq![]
            } else {
                seq!["warning: none of the listed units carry [Install] info"@]
            },
            ..printed(ctl::change_lines(changes@))
        }),
{
    let mut r = changed(changes);
    if !carries && !quiet {
        r.err.push("warning: none of the listed units carry [Install] info".to_owned());
        proof {
            assert(text::texts(r.err@) =~= seq![
                "warning: none of the listed units carry [Install] info"@,
            ]);
        }
    }
    r
}

/// `enable` or `disable` where that is not let through: nothing is asked of the
/// daemon.
pub fn refused(action: &str, units: &Vec<String>) -> (r: Printed)
    ensures
        r@ == (PrintedView {
            out: seq![],
            err: ctl::refusal(action@, text::texts(units@)),
            code: 2,
        }),
{
    let out: Vec<String> = Vec::new();
    proof {
        assert(text::texts(out@) =~= seq![]);
    }
    Printed { out, err: refuse_imperative(action, units), code: 2 }
}

// ---------------------------------------------------------------------
// States
// ---------------------------------------------------------------------

/// `is-active`: the states of the units.
pub fn is_active(states: Vec<String>) -> (r: Printed)
    ensures
        r@.out == text::texts(states@),
        r@.err.len() == 0,
        r@.code == if forall|i: int|
            0 <= i < states@.len() ==> ctl::counts_as_active(#[trigger] states@[i]@) {
            0u8
        } else {
            3u8
        },
{
    let code = is_active_code(&states);
    Printed { out: states, err: Vec::new(), code }
}

/// The states that `is-enabled` goes by: a unit that the daemon cannot tell of
/// is not found.
pub open spec fn file_states(answers: Seq<Option<String>>) -> Seq<Seq<char>> {
    answers.map_values(
        |a: Option<String>|
            match a {
                Some(s) => s@,
                None => "not-found"@,
            },
    )
}

/// `is-enabled`: the states of the unit files, given what the daemon answered.
pub fn is_enabled(answers: &Vec<Option<String>>) -> (r: Printed)
    ensures
        r@ == (PrintedView {
            code: ctl::enabled_code(file_states(answers@)),
            ..printed(file_states(answers@))
        }),
{
    let ghost all = file_states(answers@);
    let mut out: Vec<String> = Vec::new();
    let mut i: usize = 0;
    proof {
        assert(text::texts(out@) =~= all.take(0));
    }
    while i < answers.len()
        invariant
            i <= answers.len(),
            all == file_states(answers@),
            text::texts(out@) == all.take(i as int),
        decreases answers.len() - i,
    {
        let ghost before = out@;
        out.push(
            match &answers[i] {
                Some(s) => s.clone(),
                None => "not-found".to_owned(),
            },
        );
        proof {
            assert(text::texts(out@) =~= text::texts(before).push(all[i as int]));
            assert(all.take(i + 1) =~= all.take(i as int).push(all[i as int]));
        }
        i = i + 1;
    }
    proof {
        assert(all.take(all.len() as int) =~= all);
    }
    let code = is_enabled_code(&out);
    let r = lines(out);
    Printed { out: r.out, err: r.err, code }
}

/// `is-system-running`: the daemon answered, so it is up.
pub fn is_system_running() -> (r: Printed)
    ensures
        r@ == printed(seq!["running"@]),
{
    let mut out: Vec<String> = Vec::new();
    out.push("running".to_owned());
    proof {
        assert(text::texts(out@) =~= seq!["running"@]);
    }
    lines(out)
}

// ---------------------------------------------------------------------
// Files and properties
// ---------------------------------------------------------------------

/// What `cat` prints of a unit, given the path of its fragment and what could
/// be read of it.
pub open spec fn cat_text(
    unit: Seq<char>,
    path: Seq<char>,
    contents: Result<Seq<char>, Seq<char>>,
) -> PrintedView {
    if path.len() == 0 {
        PrintedView {
            out: seq![],
            err: seq!["systemlctl: "@ + unit + ": no fragment path"@],
            code: 0,
        }
    } else {
        match contents {
            Ok(s) => printed(seq!["# "@ + path, s]),
            Err(e) => PrintedView {
                out: seq!["# "@ + path, ""@],
                err: seq!["systemlctl: "@ + path + ": "@ + e],
                code: 0,
            },
        }
    }
}

/// The characters of what could be read.
pub open spec fn read_view(r: Result<String, String>) -> Result<Seq<char>, Seq<char>> {
    match r {
        Ok(s) => Ok(s@),
        Err(e) => Err(e@),
    }
}

/// `cat`: the fragment of a unit.
pub fn cat(unit: &str, path: &str, contents: &Result<String, String>) -> (r: Printed)
    ensures
        r@ == cat_text(unit@, path@, read_view(*contents)),
{
    let mut out: Vec<String> = Vec::new();
    let mut err: Vec<String> = Vec::new();
    let ghost view = cat_text(unit@, path@, read_view(*contents));
    if chars_of(path).len() == 0 {
        let mut e = "systemlctl: ".to_owned();
        e.append(unit);
        e.append(": no fragment path");
        err.push(e);
    } else {
        let mut head = "# ".to_owned();
        head.append(path);
        out.push(head);
        match contents {
            Ok(s) => {
                out.push(s.clone());
            },
            Err(reason) => {
                out.push("".to_owned());
                let mut e = "systemlctl: ".to_owned();
                e.append(path);
                e.append(": ");
                e.append(reason.as_str());
                err.push(e);
            },
        }
    }
    proof {
        assert(text::texts(out@) =~= view.out);
        assert(text::texts(err@) =~= view.err);
    }
    Printed { out, err, code: 0 }
}

/// What is shown of a property; nothing where the daemon cannot tell.
pub open spec fn property_text(prop: Seq<char>, value: Option<Seq<char>>) -> Seq<char> {
    prop + "="@ + match value {
        Some(v) => v,
        None => ""@,
    }
}

/// The lines of some properties.
pub open spec fn property_lines(
    props: Seq<(Seq<char>, Seq<char>)>,
    values: Seq<Option<String>>,
) -> Seq<Seq<char>> {
    Seq::new(props.len(), |i: int| property_text(props[i].1, text::opt_text(values[i])))
}

/// `show`: the properties of a unit, given their values in order.
pub fn show(unit: &str, values: &Vec<Option<String>>) -> (r: Printed)
    requires
        values@.len() == ctl::show_list(unit@).len(),
    ensures
        r@ == printed(
            seq!["# "@ + unit@] + property_lines(ctl::show_list(unit@), values@) + seq![""@],
        ),
{
    let props = show_properties(unit);
    let ghost named = ctl::show_list(unit@);
    let ghost all = property_lines(named, values@);
    let ghost head = "# "@ + unit@;
    let mut out: Vec<String> = Vec::new();
    let mut first = "# ".to_owned();
    first.append(unit);
    out.push(first);
    let mut i: usize = 0;
    proof {
        assert(text::texts(out@) =~= seq![head] + all.take(0));
    }
    while i < props.len()
        invariant
            i <= props.len(),
            ctl::str_pairs(props@) == named,
            named.len() == props@.len(),
            values@.len() == props@.len(),
            all == property_lines(named, values@),
            text::texts(out@) == seq![head] + all.take(i as int),
        decreases props.len() - i,
    {
        let ghost before = out@;
        let mut line = props[i].1.to_owned();
        line.append("=");
        match &values[i] {
            Some(v) => {
                line.append(v.as_str());
            },
            None => {
                line.append("");
            },
        }
        proof {
            assert(named[i as int].1 == props@[i as int].1@);
            assert(line@ == all[i as int]);
        }
        out.push(line);
        proof {
            assert(text::texts(out@) =~= text::texts(before).push(all[i as int]));
            assert(seq![head] + all.take(i + 1) =~= (seq![head] + all.take(i as int)).push(
                all[i as int],
            ));
        }
        i = i + 1;
    }
    out.push("".to_owned());
    proof {
        assert(all.take(all.len() as int) =~= all);
        assert(text::texts(out@) =~= seq![head] + all + seq![""@]);
    }
    lines(out)
}

// ---------------------------------------------------------------------
// Tables
// ---------------------------------------------------------------------

/// Whether this is the line of `list-units` for a row.
pub open spec fn is_row_line(line: Seq<char>, row: UnitListEntry) -> bool {
    ctl::is_unit_line(
        line,
        row.name@,
        row.load_state@,
        row.active_state@,
        row.sub_state@,
        row.description@,
    )
}

/// `list-units`: a table of the daemon's rows.
pub fn list_units(rows: &Vec<UnitListEntry>) -> (r: Printed)
    requires
        forall|i: int| 0 <= i < rows@.len() ==> ctl::can_cut((#[trigger] rows@[i]).name@, 35),
    ensures
        r@.code == 0,
        r@.err.len() == 0,
        r@.out.len() == rows@.len() + 1,
        r@.out[0] == ctl::units_head(),
        forall|i: int| 0 <= i < rows@.len() ==> is_row_line(r@.out[i + 1], #[trigger] rows@[i]),
{
    let mut out: Vec<String> = Vec::new();
    out.push(units_header());
    let mut i: usize = 0;
    while i < rows.len()
        invariant
            i <= rows.len(),
            out@.len() == i + 1,
            out@[0]@ == ctl::units_head(),
            forall|j: int| 0 <= j < i ==> is_row_line(out@[j + 1]@, #[trigger] rows@[j]),
            forall|j: int| 0 <= j < rows@.len() ==> ctl::can_cut((#[trigger] rows@[j]).name@, 35),
        decreases rows.len() - i,
    {
        let e = &rows[i];
        out.push(
            unit_line(
                e.name.as_str(),
                e.load_state.as_str(),
                e.active_state.as_str(),
                e.sub_state.as_str(),
                e.description.as_str(),
            ),
        );
        i = i + 1;
    }
    lines(out)
}

/// `list-unit-files`: a table of paths and states.
pub fn list_unit_files(files: &Vec<(String, String)>) -> (r: Printed)
    requires
        forall|i: int|
            0 <= i < files@.len() ==> ctl::can_cut(ctl::base_name((#[trigger] files@[i]).0@), 45),
    ensures
        r@.code == 0,
        r@.err.len() == 0,
        r@.out.len() == files@.len() + 1,
        r@.out[0] == ctl::files_head(),
        forall|i: int|
            0 <= i < files@.len() ==> ctl::is_file_line(
                r@.out[i + 1],
                ctl::base_name((#[trigger] files@[i]).0@),
                files@[i].1@,
            ),
{
    let mut out: Vec<String> = Vec::new();
    out.push(files_header());
    let mut i: usize = 0;
    while i < files.len()
        invariant
            i <= files.len(),
            out@.len() == i + 1,
            out@[0]@ == ctl::files_head(),
            forall|j: int|
                0 <= j < i ==> ctl::is_file_line(
                    out@[j + 1]@,
                    ctl::base_name((#[trigger] files@[j]).0@),
                    files@[j].1@,
                ),
            forall|j: int|
                0 <= j < files@.len() ==> ctl::can_cut(
                    ctl::base_name((#[trigger] files@[j]).0@),
                    45,
                ),
        decreases files.len() - i,
    {
        let f = &files[i];
        let base = shown_file(f.0.as_str());
        out.push(file_line(base.as_str(), f.1.as_str()));
        i = i + 1;
    }
    lines(out)
}

} // verus!
