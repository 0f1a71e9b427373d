//! What is told to those who ask.

use crate::bus::events;
use crate::bus::events::SignalView;
use crate::bus::manager_iface;
use crate::bus::manager_iface::RowView;
use crate::bus::object_path;
use crate::bus::service_iface;
use crate::bus::unit_iface;
use crate::bus::unit_iface::Relation;
use crate::client;
use crate::client::UnitCommand;
use crate::ctl;
use crate::deps::job::{JobId, JobMode, JobOutcome, JobType};
use crate::journal;
use crate::journal::{Format, Stamped};
use crate::number;
use crate::runtime::manager::EventView;
use crate::runtime::state;
use crate::runtime::state::{ActiveState, LoadState, StatusView};
use crate::unit::deps::DepsView;
use crate::unit::duration::SdDuration;
use crate::unit::exec::{ExecFlags, ExecView};
use crate::unit::install::InstallView;
use crate::unit::name;
use crate::unit::name::NameView;
use crate::unit::service;
use crate::unit::service::{Restart, ServiceType};
use crate::unit::spelling;
use crate::unit::words;
use vstd::prelude::*;

verus! {

// ---------------------------------------------------------------------
// The bus
// ---------------------------------------------------------------------

/// The word for a job mode.
pub open spec fn mode_word(m: JobMode) -> Seq<char> {
    match m {
        JobMode::Fail => "fail"@,
        JobMode::Replace => "replace"@,
        JobMode::ReplaceIrreversibly => "replace-irreversibly"@,
        JobMode::Isolate => "isolate"@,
        JobMode::Flush => "flush"@,
        JobMode::IgnoreDependencies => "ignore-dependencies"@,
        JobMode::IgnoreRequirements => "ignore-requirements"@,
    }
}

/// The mode of a request is read by its word; no word is `replace`.
pub proof fn modes_are_read_by_their_words(s: Seq<char>, m: JobMode)
    ensures
        manager_iface::mode_argument(s) matches Ok(x) ==> s == mode_word(x) || (s.len() == 0 && x
            is Replace),
        manager_iface::mode_argument(mode_word(m)) matches Ok(x) && x == m,
        s.len() == 0 ==> (manager_iface::mode_argument(s) matches Ok(x) && x is Replace),
{
    spelling::lemma_mode_word_marks();
    reveal_strlit("");
    reveal_strlit("fail");
    reveal_strlit("replace");
    reveal_strlit("replace-irreversibly");
    reveal_strlit("isolate");
    reveal_strlit("flush");
    reveal_strlit("ignore-dependencies");
    reveal_strlit("ignore-requirements");
    assert(s.len() == 0 ==> s =~= ""@);
    assert(mode_word(m).len() > 0);
    assert("fail"@.len() == 4);
}

/// The bus shows the states of units by the words that `show` has for them.
pub proof fn the_bus_shows_states_by_their_words(s: ActiveState, l: LoadState)
    ensures
        manager_iface::active_state_text(s) == state::active_text(s),
        manager_iface::load_state_text(l) == "loaded"@ <==> l is Loaded,
        manager_iface::load_state_text(l) == "error"@ <==> l is Error,
        manager_iface::load_state_text(l) == "stub"@ <==> l is Stub,
        manager_iface::load_state_text(l) == "masked"@ <==> l is Masked,
        manager_iface::load_state_text(l) == "not-found"@ <==> l is NotFound,
        manager_iface::load_state_text(l) == "merged"@ <==> l is Merged,
        manager_iface::load_state_text(l) == "bad-setting"@ <==> l is BadSetting,
{
    spelling::lemma_load_word_marks();
}

/// What the bus shows of the type and the restart policy of a service is what its
/// directives read.
pub proof fn the_bus_shows_what_directives_read(t: ServiceType, r: Restart)
    ensures
        service::service_type_of(service_iface::service_type_text(t)) == Ok::<
            ServiceType,
            Seq<char>,
        >(t),
        service::restart_of(service_iface::restart_text(r)) == Ok::<Restart, Seq<char>>(r),
        service_iface::service_type_text(t) == words::type_word(t),
        service_iface::restart_text(r) == words::restart_word(r),
{
    words::types_are_read_by_their_words(words::type_word(t), t);
    words::restarts_are_read_by_their_words(words::restart_word(r), r);
}

/// Durations go over the bus in whole microseconds, the largest number standing for
/// no limit.
pub proof fn durations_are_told_in_microseconds(d: SdDuration)
    ensures
        d is Infinity ==> service_iface::micros(d) == u64::MAX,
        d matches SdDuration::Finite(t) ==> {
            let n = service_iface::micros(d);
            &&& n * 1000 <= t.total()
            &&& n < u64::MAX ==> t.total() < (n + 1) * 1000
        },
        service_iface::opt_micros(None) == 0,
        service_iface::opt_micros(Some(d)) == service_iface::micros(d),
{
}

/// A command goes over the bus with its program, its arguments, and whether its
/// failure counts.
pub proof fn commands_are_told(c: ExecView)
    ensures
        service_iface::exec_entry(c).path == c.program,
        service_iface::exec_entry(c).argv == c.argv,
        service_iface::exec_entry(c).ignore_failure <==> c.flags & ExecFlags::IGNORE_FAILURE
            == ExecFlags::IGNORE_FAILURE,
{
}

/// Each relation that the bus shows of a unit is that of its own directive.
pub proof fn relations_are_those_declared(d: DepsView, i: InstallView)
    ensures
        unit_iface::related(d, i, Relation::Requires) == d.requires,
        unit_iface::related(d, i, Relation::Wants) == d.wants,
        unit_iface::related(d, i, Relation::BindsTo) == d.binds_to,
        unit_iface::related(d, i, Relation::Conflicts) == d.conflicts,
        unit_iface::related(d, i, Relation::Before) == d.before,
        unit_iface::related(d, i, Relation::After) == d.after,
        unit_iface::related(d, i, Relation::RequiredBy) == i.required_by,
        unit_iface::related(d, i, Relation::WantedBy) == i.wanted_by,
{
}

/// The word for how a job ended.
pub open spec fn outcome_word(o: JobOutcome) -> Seq<char> {
    match o {
        JobOutcome::Done => "done"@,
        JobOutcome::Canceled => "canceled"@,
        JobOutcome::Timeout => "timeout"@,
        JobOutcome::Failed => "failed"@,
        JobOutcome::DependencyFailed => "dependency"@,
        JobOutcome::Skipped => "skipped"@,
    }
}

/// Units and jobs that come and go are signalled under their own names, with how a
/// job ended; that a state changed is not.
pub proof fn comings_and_goings_are_signalled(
    n: NameView,
    id: JobId,
    kind: JobType,
    o: JobOutcome,
    active: ActiveState,
    sub: Seq<char>,
)
    ensures
        events::signal_of(EventView::UnitNew(n)) == Some(
            SignalView::UnitNew { id: name::name_text(n), path: object_path::unit_path(n) },
        ),
        events::signal_of(EventView::UnitRemoved(n)) == Some(
            SignalView::UnitRemoved { id: name::name_text(n), path: object_path::unit_path(n) },
        ),
        events::signal_of(EventView::JobNew { id, unit: n, kind }) matches Some(
            SignalView::JobNew { id: i, path, unit },
        ) && i == id.0 && path == object_path::unit_path(n) && unit == name::name_text(n),
        events::signal_of(EventView::JobRemoved { id, unit: n, outcome: o }) matches Some(
            SignalView::JobRemoved { id: i, path, unit, result },
        ) && i == id.0 && path == object_path::unit_path(n) && unit == name::name_text(n) && result
            == outcome_word(o),
        events::signal_of(EventView::StateChanged { unit: n, active, sub }) is None,
{
}

/// A row of the list of units says what the unit's own status says.
pub proof fn rows_say_what_the_status_says(n: NameView, st: StatusView)
    ensures
        ({
            let r = manager_iface::row_of(n, st);
            &&& r.name == name::name_text(n)
            &&& r.description == st.description
            &&& r.load_state == manager_iface::load_state_text(st.load)
            &&& r.active_state == state::active_text(st.active)
            &&& r.sub_state == st.sub
            &&& r.unit_path == object_path::unit_path(n)
            &&& r.job_id == 0
        }),
{
}

/// A filtered list holds just the rows whose state is asked for and whose name fits
/// a pattern; no states, or no patterns, ask for all.
pub proof fn filters_keep_what_fits(
    rows: Seq<RowView>,
    states: Seq<Seq<char>>,
    patterns: Seq<Seq<char>>,
    r: RowView,
)
    ensures
        manager_iface::listed_rows(rows, states, patterns).contains(r) <==> rows.contains(r) && (
        states.len() == 0 || states.contains(r.active_state)) && (patterns.len() == 0 || exists|
            i: int,
        |
            0 <= i < patterns.len() && #[trigger] manager_iface::glob_fits(patterns[i], r.name)),
    decreases rows.len(),
{
    if rows.len() > 0 {
        let before = rows.drop_last();
        filters_keep_what_fits(before, states, patterns, r);
        let kept = manager_iface::listed_rows(before, states, patterns);
        let x = rows.last();
        assert(rows[rows.len() - 1] == x);
        assert(kept.push(x)[kept.len() as int] == x);
        if before.contains(r) {
            let i = choose|i: int| 0 <= i < before.len() && before[i] == r;
            assert(rows[i] == r);
        }
        if rows.contains(r) && r != x {
            let i = choose|i: int| 0 <= i < rows.len() && rows[i] == r;
            assert(before[i] == r);
        }
        if kept.contains(r) {
            let i = choose|i: int| 0 <= i < kept.len() && kept[i] == r;
            assert(kept.push(x)[i] == r);
        }
        if kept.push(x).contains(r) && r != x {
            let i = choose|i: int| 0 <= i < kept.push(x).len() && kept.push(x)[i] == r;
            assert(kept[i] == r);
        }
    }
}

// ---------------------------------------------------------------------
// The command line
// ---------------------------------------------------------------------

/// Each command calls the method of its own name and says what it did.
pub proof fn commands_call_their_methods(c: UnitCommand, unit: Seq<char>)
    ensures
        client::method_of(c) == "StartUnit"@ <==> c is Start,
        client::method_of(c) == "StopUnit"@ <==> c is Stop,
        client::method_of(c) == "RestartUnit"@ <==> c is Restart,
        client::method_of(c) == "ReloadUnit"@ <==> c is Reload,
        client::done_text(UnitCommand::Start, unit) == "Started "@ + unit,
        client::done_text(UnitCommand::Stop, unit) == "Stopped "@ + unit,
        client::done_text(UnitCommand::Restart, unit) == "Restarted "@ + unit,
        client::done_text(UnitCommand::Reload, unit) == "Reloaded "@ + unit,
{
    spelling::lemma_method_word_marks();
}

/// `is-active` counts active and reloading units, and `is-enabled` those that are
/// enabled, static or an alias; a unit without a file is told from one that is not
/// enabled.
pub proof fn questions_are_answered_by_the_words(s: Seq<char>)
    ensures
        ctl::counts_as_active(s) <==> s == "active"@ || s == "reloading"@,
        ctl::counts_as_enabled(s) <==> s == "enabled"@ || s == "static"@ || s == "alias"@,
        ctl::enabled_code(seq![s]) == if s == "not-found"@ {
            4u8
        } else if s == "enabled"@ || s == "static"@ || s == "alias"@ {
            0u8
        } else {
            1u8
        },
{
    reveal_with_fuel(ctl::enabled_code, 2);
    assert(seq![s].drop_last() =~= seq![]);
}

/// A property is shown as its name and its value.
pub proof fn properties_are_shown_with_their_names(p: Seq<char>, v: Seq<char>)
    ensures
        client::property_text(p, Some(v)) == p + "="@ + v,
        client::property_text(p, None) == p + "="@,
{
    reveal_strlit("");
    assert(p + "="@ + ""@ =~= p + "="@);
}

// ---------------------------------------------------------------------
// The journal
// ---------------------------------------------------------------------

/// The format of the journal is read by its word; no word is the short one.
pub proof fn formats_are_read_by_their_words(s: Seq<char>)
    ensures
        journal::format_of(s) matches Ok(Format::Short) <==> s == "short"@ || s.len() == 0,
        journal::format_of(s) matches Ok(Format::ShortIso) <==> s == "short-iso"@,
        journal::format_of(s) matches Ok(Format::Cat) <==> s == "cat"@,
        journal::format_of(s) matches Ok(Format::Json) <==> s == "json"@,
{
    spelling::lemma_format_word_marks();
    reveal_strlit("");
    reveal_strlit("short-iso");
    reveal_strlit("cat");
    reveal_strlit("json");
    assert(s.len() == 0 <==> s =~= ""@);
}

/// The months by their short names.
pub proof fn months_have_their_names(m: u8)
    ensures
        journal::month_text(m) == "Jan"@ <==> m == 1,
        journal::month_text(m) == "Feb"@ <==> m == 2,
        journal::month_text(m) == "Mar"@ <==> m == 3,
        journal::month_text(m) == "Apr"@ <==> m == 4,
        journal::month_text(m) == "May"@ <==> m == 5,
        journal::month_text(m) == "Jun"@ <==> m == 6,
        journal::month_text(m) == "Jul"@ <==> m == 7,
        journal::month_text(m) == "Aug"@ <==> m == 8,
        journal::month_text(m) == "Sep"@ <==> m == 9,
        journal::month_text(m) == "Oct"@ <==> m == 10,
        journal::month_text(m) == "Nov"@ <==> m == 11,
        journal::month_text(m) == "Dec"@ <==> m == 12,
{
    spelling::lemma_month_word_marks();
}

/// A part of the clock is two digits that read back.
pub proof fn clocks_have_two_digits(n: u8)
    requires
        n < 100,
    ensures
        journal::two_digits(n).len() == 2,
        number::uint_of(journal::two_digits(n), 10, 99) == Ok::<nat, number::IntError>(n as nat),
{
    let t = journal::two_digits(n);
    reveal_strlit("0");
    reveal_with_fuel(number::decimal, 3);
    number::lemma_digits_run(t, 10);
    let u = t.drop_last();
    assert(u.drop_last() =~= seq![]);
    assert(number::digits_value(u.drop_last(), 10) == 0);
    assert(number::digits_value(u, 10) == number::digit_value(t[0]));
    assert(t.take(2) =~= t);
}

/// `cat` shows the message alone. The short formats show the unit and the stream
/// before it, and the time before these where the line has one: `short-iso` just as
/// the line has it.
pub proof fn formats_decorate_the_message(
    unit: Seq<char>,
    stream: Seq<char>,
    line: Stamped,
)
    ensures
        journal::rendered(unit, stream, line, Format::Cat) == line.1,
        ({
            let origin = unit + "["@ + stream + "]: "@ + line.1;
            &&& line.0 is None ==> journal::rendered(unit, stream, line, Format::Short) == origin
                && journal::rendered(unit, stream, line, Format::ShortIso) == origin
            &&& line.0 matches Some((rfc, p)) ==> {
                &&& journal::rendered(unit, stream, line, Format::ShortIso) == rfc + " "@ + origin
                &&& journal::rendered(unit, stream, line, Format::Short) == journal::month_text(p.0)
                    + " "@ + journal::two_digits(p.1) + " "@ + journal::two_digits(p.2) + ":"@
                    + journal::two_digits(p.3) + ":"@ + journal::two_digits(p.4) + " "@ + origin
            }
        }),
{
}

/// The last lines of a journal are just so many, or all there are.
pub proof fn tails_are_the_last_lines(ls: Seq<Seq<char>>, n: nat, i: int)
    ensures
        journal::tail_of(ls, None) == ls,
        journal::tail_of(ls, Some(n)).len() == if n < ls.len() {
            n
        } else {
            ls.len()
        },
        0 <= i < journal::tail_of(ls, Some(n)).len() ==> journal::tail_of(ls, Some(n))[i] == ls[
        ls.len() - journal::tail_of(ls, Some(n)).len() + i],
{
}

/// Padding adds spaces up to the width, and cuts nothing.
pub proof fn padding_fills_with_spaces(s: Seq<char>, width: nat)
    ensures
        journal::padded(s, width).len() == if s.len() < width {
            width
        } else {
            s.len()
        },
        forall|i: int| 0 <= i < s.len() ==> journal::padded(s, width)[i] == s[i],
        forall|i: int| s.len() <= i < width ==> journal::padded(s, width)[i] == ' ',
    decreases width - s.len(),
{
    if s.len() < width {
        padding_fills_with_spaces(s.push(' '), width);
        let p = journal::padded(s, width);
        assert forall|i: int| 0 <= i < s.len() implies p[i] == s[i] by {
            assert(s.push(' ')[i] == s[i]);
        }
        assert(p[s.len() as int] == s.push(' ')[s.len() as int]);
    }
}

} // verus!
