//! What is shown of units, and how they change.

use crate::runtime::manager;
use crate::runtime::manager::{EventView, ManagerView, StartPlan};
use crate::runtime::properties;
use crate::runtime::properties::Properties;
use crate::runtime::state;
use crate::runtime::state::{ActiveState, LoadState, StatusView};
use crate::deps::job::{JobId, JobOutcome};
use crate::text;
use crate::unit::name;
use crate::unit::name::NameView;
use crate::unit::name_map;
use crate::unit::service::{Restart, ServiceType, ServiceView};
use crate::unit::spec::{TypeView, UnitView};
use crate::unit::spelling;
use vstd::prelude::*;

verus! {

// ---------------------------------------------------------------------
// Words
// ---------------------------------------------------------------------

/// The words for the states of a unit tell them apart.
pub proof fn states_are_shown_by_their_words(s: ActiveState)
    ensures
        state::active_text(s) == "inactive"@ <==> s is Inactive,
        state::active_text(s) == "activating"@ <==> s is Activating,
        state::active_text(s) == "active"@ <==> s is Active,
        state::active_text(s) == "deactivating"@ <==> s is Deactivating,
        state::active_text(s) == "failed"@ <==> s is Failed,
        state::active_text(s) == "reloading"@ <==> s is Reloading,
        state::active_text(s) == "maintenance"@ <==> s is Maintenance,
{
    spelling::lemma_state_word_marks();
}

/// The words for whether a unit is loaded tell them apart.
pub proof fn loading_is_shown_by_its_words(s: LoadState)
    ensures
        state::load_text(s) == "loaded"@ <==> s is Loaded,
        state::load_text(s) == "error"@ <==> s is Error,
        state::load_text(s) == "stub"@ <==> s is Stub,
        state::load_text(s) == "masked"@ <==> s is Masked,
        state::load_text(s) == "notfound"@ <==> s is NotFound,
        state::load_text(s) == "merged"@ <==> s is Merged,
        state::load_text(s) == "badsetting"@ <==> s is BadSetting,
{
    spelling::lemma_state_word_marks();
}

/// The words for the types of services tell them apart.
pub proof fn types_are_shown_by_their_words(t: ServiceType)
    ensures
        properties::type_text(t) == "simple"@ <==> t is Simple,
        properties::type_text(t) == "exec"@ <==> t is Exec,
        properties::type_text(t) == "forking"@ <==> t is Forking,
        properties::type_text(t) == "oneshot"@ <==> t is Oneshot,
        properties::type_text(t) == "notify"@ <==> t is Notify,
        properties::type_text(t) == "notifyreload"@ <==> t is NotifyReload,
        properties::type_text(t) == "dbus"@ <==> t is Dbus,
        properties::type_text(t) == "idle"@ <==> t is Idle,
{
    spelling::lemma_shown_word_marks();
}

/// The words for the restart policies tell them apart.
pub proof fn restarts_are_shown_by_their_words(r: Restart)
    ensures
        properties::restart_text(r) == "no"@ <==> r is No,
        properties::restart_text(r) == "always"@ <==> r is Always,
        properties::restart_text(r) == "onsuccess"@ <==> r is OnSuccess,
        properties::restart_text(r) == "onfailure"@ <==> r is OnFailure,
        properties::restart_text(r) == "onabnormal"@ <==> r is OnAbnormal,
        properties::restart_text(r) == "onwatchdog"@ <==> r is OnWatchdog,
        properties::restart_text(r) == "onabort"@ <==> r is OnAbort,
{
    spelling::lemma_shown_word_marks();
}

// ---------------------------------------------------------------------
// Properties
// ---------------------------------------------------------------------

/// What a table of properties holds under a name.
pub open spec fn looked(p: Properties, k: Seq<char>) -> Option<Seq<char>> {
    if p.contains_key(k) {
        Some(p[k])
    } else {
        None
    }
}

/// How a switch is shown.
pub open spec fn yes_or_no(b: bool) -> Seq<char> {
    if b {
        "yes"@
    } else {
        "no"@
    }
}

proof fn lemma_kept(m: Properties, kept: Seq<(Seq<char>, Seq<char>)>, k: Seq<char>)
    requires
        m.contains_key(k),
    ensures
        properties::with_kept(m, kept).contains_key(k),
        properties::with_kept(m, kept)[k] == m[k],
    decreases kept.len(),
{
    if kept.len() > 0 {
        let (key, value) = kept.last();
        let next = if m.contains_key(key) {
            m
        } else {
            m.insert(key, value)
        };
        lemma_kept(next, kept.drop_last(), k);
    }
}

/// The names that every unit shows, but for those of its `[Install]` section.
spec fn is_common(k: Seq<char>) -> bool {
    ||| k == "Id"@
    ||| k == "Names"@
    ||| k == "Description"@
    ||| k == "LoadState"@
    ||| k == "ActiveState"@
    ||| k == "SubState"@
    ||| k == "FragmentPath"@
    ||| k == "DefaultDependencies"@
    ||| k == "StopWhenUnneeded"@
    ||| k == "RefuseManualStart"@
    ||| k == "RefuseManualStop"@
    ||| k == "Documentation"@
}

proof fn lemma_common(n: NameView, u: UnitView, st: StatusView)
    ensures
        ({
            let p = properties::common_properties(n, u, st);
            &&& looked(p, "Id"@) == Some(name::name_text(n))
            &&& looked(p, "Names"@) == Some(name::name_text(n))
            &&& looked(p, "Description"@) == Some(u.description)
            &&& looked(p, "LoadState"@) == Some(state::load_text(st.load))
            &&& looked(p, "ActiveState"@) == Some(state::active_text(st.active))
            &&& looked(p, "SubState"@) == Some(st.sub)
            &&& looked(p, "FragmentPath"@) == Some(if u.fragment_paths.len() > 0 { u.fragment_paths[0] } else { ""@ })
            &&& looked(p, "DefaultDependencies"@) == Some(yes_or_no(u.default_dependencies))
            &&& looked(p, "StopWhenUnneeded"@) == Some(yes_or_no(u.stop_when_unneeded))
            &&& looked(p, "RefuseManualStart"@) == Some(yes_or_no(u.refuse_manual_start))
            &&& looked(p, "RefuseManualStop"@) == Some(yes_or_no(u.refuse_manual_stop))
            &&& looked(p, "Documentation"@) == Some(text::joined_by(u.documentation, " "@))
        }),
{
    spelling::lemma_property_word_marks();
}

proof fn lemma_still(n: NameView, u: UnitView, st: StatusView, k: Seq<char>)
    requires
        is_common(k),
        properties::common_properties(n, u, st).contains_key(k),
    ensures
        looked(properties::own_properties(n, u, st), k) == looked(
            properties::common_properties(n, u, st),
            k,
        ),
{
    spelling::lemma_property_word_marks();
    let m = properties::common_properties(n, u, st);
    match u.kind {
        TypeView::Service(s) => {
            lemma_service_keeps(m, s, k);
        },
        _ => {},
    }
}

proof fn lemma_service_keeps(m: Properties, s: ServiceView, k: Seq<char>)
    requires
        is_common(k),
        m.contains_key(k),
    ensures
        looked(properties::with_service(m, s), k) == looked(m, k),
{
    spelling::lemma_property_word_marks();
}

/// Every unit shows its name, its states and what its `[Unit]` and `[Install]`
/// sections say, each under its own name.
#[verifier::rlimit(40)]
pub proof fn units_show_what_they_are(n: NameView, u: UnitView, st: StatusView)
    ensures
        ({
            let p = properties::properties(n, u, st);
            &&& looked(p, "Id"@) == Some(name::name_text(n))
            &&& looked(p, "Names"@) == Some(name::name_text(n))
            &&& looked(p, "Description"@) == Some(u.description)
            &&& looked(p, "LoadState"@) == Some(state::load_text(st.load))
            &&& looked(p, "ActiveState"@) == Some(state::active_text(st.active))
            &&& looked(p, "SubState"@) == Some(st.sub)
            &&& looked(p, "FragmentPath"@) == Some(if u.fragment_paths.len() > 0 { u.fragment_paths[0] } else { ""@ })
            &&& looked(p, "DefaultDependencies"@) == Some(yes_or_no(u.default_dependencies))
            &&& looked(p, "StopWhenUnneeded"@) == Some(yes_or_no(u.stop_when_unneeded))
            &&& looked(p, "RefuseManualStart"@) == Some(yes_or_no(u.refuse_manual_start))
            &&& looked(p, "RefuseManualStop"@) == Some(yes_or_no(u.refuse_manual_stop))
            &&& looked(p, "Documentation"@) == Some(text::joined_by(u.documentation, " "@))
            &&& looked(p, "WantedBy"@) == Some(properties::names_text(u.install.wanted_by))
            &&& looked(p, "RequiredBy"@) == Some(properties::names_text(u.install.required_by))
        }),
{
    spelling::lemma_property_word_marks();
    let m = properties::own_properties(n, u, st);
    let kept = properties::kept_directives(u);
    lemma_common(n, u, st);
    lemma_kept(m, kept, "WantedBy"@);
    lemma_kept(m, kept, "RequiredBy"@);
    lemma_still(n, u, st, "Id"@);
    lemma_kept(m, kept, "Id"@);
    lemma_still(n, u, st, "Names"@);
    lemma_kept(m, kept, "Names"@);
    lemma_still(n, u, st, "Description"@);
    lemma_kept(m, kept, "Description"@);
    lemma_still(n, u, st, "LoadState"@);
    lemma_kept(m, kept, "LoadState"@);
    lemma_still(n, u, st, "ActiveState"@);
    lemma_kept(m, kept, "ActiveState"@);
    lemma_still(n, u, st, "SubState"@);
    lemma_kept(m, kept, "SubState"@);
    lemma_still(n, u, st, "FragmentPath"@);
    lemma_kept(m, kept, "FragmentPath"@);
    lemma_still(n, u, st, "DefaultDependencies"@);
    lemma_kept(m, kept, "DefaultDependencies"@);
    lemma_still(n, u, st, "StopWhenUnneeded"@);
    lemma_kept(m, kept, "StopWhenUnneeded"@);
    lemma_still(n, u, st, "RefuseManualStart"@);
    lemma_kept(m, kept, "RefuseManualStart"@);
    lemma_still(n, u, st, "RefuseManualStop"@);
    lemma_kept(m, kept, "RefuseManualStop"@);
    lemma_still(n, u, st, "Documentation"@);
    lemma_kept(m, kept, "Documentation"@);
}

/// A service shows the directives of its own section, each under its own name, and those
/// that are not always set where they are.
pub proof fn services_show_their_directives(n: NameView, u: UnitView, st: StatusView)
    requires
        u.kind is Service,
    ensures
        ({
            let p = properties::properties(n, u, st);
            let s = u.kind->Service_0;
            &&& looked(p, "Type"@) == Some(properties::type_text(s.service_type))
            &&& looked(p, "Restart"@) == Some(properties::restart_text(s.restart))
            &&& looked(p, "RemainAfterExit"@) == Some(yes_or_no(s.remain_after_exit))
            &&& looked(p, "ExecStart"@) == Some(properties::commands_text(s.exec_start))
            &&& s.pid_file is Some ==> looked(p, "PIDFile"@) == Some(s.pid_file->Some_0)
            &&& s.user is Some ==> looked(p, "User"@) == Some(s.user->Some_0)
            &&& s.group is Some ==> looked(p, "Group"@) == Some(s.group->Some_0)
            &&& s.exec_stop.len() > 0 ==> looked(p, "ExecStop"@) == Some(properties::commands_text(s.exec_stop))
            &&& s.timeout_start_sec is Some ==> looked(p, "TimeoutStartUSec"@) == Some(properties::micros_text(s.timeout_start_sec->Some_0))
            &&& s.timeout_stop_sec is Some ==> looked(p, "TimeoutStopUSec"@) == Some(properties::micros_text(s.timeout_stop_sec->Some_0))
        }),
{
    spelling::lemma_property_word_marks();
    let m = properties::own_properties(n, u, st);
    let kept = properties::kept_directives(u);
    let s = u.kind->Service_0;
    lemma_kept(m, kept, "Type"@);
    lemma_kept(m, kept, "Restart"@);
    lemma_kept(m, kept, "RemainAfterExit"@);
    lemma_kept(m, kept, "ExecStart"@);
    if s.pid_file is Some {
        lemma_kept(m, kept, "PIDFile"@);
    }
    if s.user is Some {
        lemma_kept(m, kept, "User"@);
    }
    if s.group is Some {
        lemma_kept(m, kept, "Group"@);
    }
    if s.exec_stop.len() > 0 {
        lemma_kept(m, kept, "ExecStop"@);
    }
    if s.timeout_start_sec is Some {
        lemma_kept(m, kept, "TimeoutStartUSec"@);
    }
    if s.timeout_stop_sec is Some {
        lemma_kept(m, kept, "TimeoutStopUSec"@);
    }
}

/// A timer shows the directives of its own section, each under its own name, and those
/// that are not always set where they are.
pub proof fn timers_show_their_directives(n: NameView, u: UnitView, st: StatusView)
    requires
        u.kind is Timer,
    ensures
        ({
            let p = properties::properties(n, u, st);
            let s = u.kind->Timer_0;
            &&& looked(p, "OnCalendar"@) == Some(properties::calendars_text(s.on_calendar))
            &&& looked(p, "Persistent"@) == Some(yes_or_no(s.persistent))
            &&& s.unit is Some ==> looked(p, "Unit"@) == Some(name::name_text(s.unit->Some_0))
        }),
{
    spelling::lemma_property_word_marks();
    let m = properties::own_properties(n, u, st);
    let kept = properties::kept_directives(u);
    let s = u.kind->Timer_0;
    lemma_kept(m, kept, "OnCalendar"@);
    lemma_kept(m, kept, "Persistent"@);
    if s.unit is Some {
        lemma_kept(m, kept, "Unit"@);
    }
}

/// A path unit shows the directives of its own section, each under its own name, and those
/// that are not always set where they are.
pub proof fn paths_show_their_directives(n: NameView, u: UnitView, st: StatusView)
    requires
        u.kind is Path,
    ensures
        ({
            let p = properties::properties(n, u, st);
            let s = u.kind->Path_0;
            &&& looked(p, "MakeDirectory"@) == Some(yes_or_no(s.make_directory))
            &&& s.unit is Some ==> looked(p, "Unit"@) == Some(name::name_text(s.unit->Some_0))
        }),
{
    spelling::lemma_property_word_marks();
    let m = properties::own_properties(n, u, st);
    let kept = properties::kept_directives(u);
    let s = u.kind->Path_0;
    lemma_kept(m, kept, "MakeDirectory"@);
    if s.unit is Some {
        lemma_kept(m, kept, "Unit"@);
    }
}

/// A socket shows the directives of its own section, each under its own name, and those
/// that are not always set where they are.
pub proof fn sockets_show_their_directives(n: NameView, u: UnitView, st: StatusView)
    requires
        u.kind is Socket,
    ensures
        ({
            let p = properties::properties(n, u, st);
            let s = u.kind->Socket_0;
            &&& looked(p, "Accept"@) == Some(yes_or_no(s.accept))
            &&& s.service is Some ==> looked(p, "Service"@) == Some(name::name_text(s.service->Some_0))
        }),
{
    spelling::lemma_property_word_marks();
    let m = properties::own_properties(n, u, st);
    let kept = properties::kept_directives(u);
    let s = u.kind->Socket_0;
    lemma_kept(m, kept, "Accept"@);
    if s.service is Some {
        lemma_kept(m, kept, "Service"@);
    }
}

// ---------------------------------------------------------------------
// Changes
// ---------------------------------------------------------------------

proof fn lemma_entry_found<T>(s: Seq<(NameView, T)>, n: NameView, v: T, m: NameView)
    requires
        name_map::names_of(s).no_duplicates(),
    ensures
        name_map::found(name_map::with_entry(s, n, v), n) == Some(v),
        m != n ==> name_map::found(name_map::with_entry(s, n, v), m) == name_map::found(s, m),
{
    let a = name_map::names_of(s);
    let w = name_map::with_entry(s, n, v);
    let b = name_map::names_of(w);
    if a.contains(n) {
        let i = a.index_of(n);
        assert(b =~= a);
        assert(s[i].0 == n);
        if m != n && a.contains(m) {
            let j = a.index_of(m);
            assert(a[j] == m && a[i] == n);
        }
    } else {
        let k = a.len() as int;
        assert(b =~= a.push(n));
        assert(b[k] == n);
        assert(b.contains(n));
        let i = b.index_of(n);
        assert(b[i] == n);
        if i < k {
            assert(a[i] == n);
        }
        if m != n {
            if a.contains(m) {
                let x = a.index_of(m);
                assert(a[x] == m);
                assert(b[x] == m);
                let y = b.index_of(m);
                assert(b[y] == m);
                assert(y < k);
                assert(a[y] == m);
            } else if b.contains(m) {
                let y = choose|y: int| 0 <= y < b.len() && b[y] == m;
                assert(y < k);
                assert(a[y] == m);
            }
        }
    }
}

/// Marking a unit sets its state and nothing else of it, and touches no other unit;
/// a unit that is not known stays so.
pub proof fn marking_touches_one_unit(
    m: ManagerView,
    n: NameView,
    active: ActiveState,
    sub: Seq<char>,
    other: NameView,
)
    requires
        name_map::names_of(m.status).no_duplicates(),
    ensures
        ({
            let r = manager::marked(m, n, active, sub);
            let (a, b) = (manager::status_of(m, n), manager::status_of(r, n));
            &&& r.units == m.units && r.services == m.services && r.next_job_id == m.next_job_id
            &&& name_map::found(m.status, n) is Some ==> b.active == active && b.sub == sub && b.load
                == a.load && b.description == a.description && b.unit == a.unit
            &&& name_map::found(m.status, n) is None ==> r == m && b.load is NotFound
            &&& other != n ==> manager::status_of(r, other) == manager::status_of(m, other)
        }),
{
    match name_map::found(m.status, n) {
        Some(st) => {
            lemma_entry_found(m.status, n, StatusView { active, sub, ..st }, other);
        },
        None => {},
    }
}

/// A start that has no process of its own is done at once: the unit is active, the
/// job is over, and the timers are woken just where it is one. A service is activating
/// until its own start is over; without its runner nothing changes.
pub proof fn starting_by_kind(m: ManagerView, n: NameView, id: JobId, events: Seq<EventView>)
    requires
        name_map::names_of(m.status).no_duplicates(),
        name_map::found(m.status, n) is Some,
    ensures
        ({
            let (r, s) = manager::run_start(m, n, id, events);
            let st = manager::status_of(r, n);
            &&& s.id == id
            &&& !(n.kind is Service) ==> {
                &&& st.active is Active
                &&& n.kind is Target ==> st.sub == "active"@
                &&& n.kind is Timer || n.kind is Path ==> st.sub == "waiting"@
                &&& n.kind is Socket ==> st.sub == "listening"@
                &&& s.plan matches Ok(StartPlan::Finished { wake_timers, stamp }) && (wake_timers
                    <==> n.kind is Timer) && (stamp ==> n.kind is Timer)
                &&& s.events.last() == (EventView::JobRemoved {
                    id,
                    unit: n,
                    outcome: JobOutcome::Done,
                })
                &&& s.events.len() == events.len() + 2
            }
            &&& n.kind is Service && name_map::found(m.services, n) is Some ==> {
                &&& st.active is Activating
                &&& s.plan == Ok::<StartPlan, Seq<char>>(StartPlan::RunService)
                &&& s.events.len() == events.len() + 1
            }
            &&& n.kind is Service && name_map::found(m.services, n) is None ==> r == m && s.plan
                is Err && s.events == events
        }),
{
    let sub = if n.kind is Service {
        "start"@
    } else {
        manager::started_sub(n.kind)
    };
    let active = if n.kind is Service {
        ActiveState::Activating
    } else {
        ActiveState::Active
    };
    marking_touches_one_unit(m, n, active, sub, n);
}

/// Resetting makes a unit that failed inactive, and changes no other.
pub proof fn resetting_clears_a_failure(m: ManagerView, n: NameView)
    requires
        name_map::names_of(m.status).no_duplicates(),
    ensures
        manager::status_of(m, n).active is Failed ==> manager::status_of(
            manager::reset(m, n),
            n,
        ).active is Inactive,
        !(manager::status_of(m, n).active is Failed) ==> manager::reset(m, n) == m,
{
    marking_touches_one_unit(m, n, ActiveState::Inactive, "dead"@, n);
}

/// Job numbers go up one by one, and stay at the last.
pub proof fn job_numbers_go_up(m: ManagerView)
    ensures
        m.next_job_id < u32::MAX ==> manager::with_job(m).next_job_id == m.next_job_id + 1,
        m.next_job_id == u32::MAX ==> manager::with_job(m).next_job_id == u32::MAX,
        manager::with_job(m).units == m.units,
        manager::with_job(m).status == m.status,
{
}

/// At its start the manager activates the timers, services, paths and sockets that
/// some target links and that are not up yet, and no other unit.
pub proof fn linked_units_are_activated(m: ManagerView, n: NameView, has_link: bool)
    ensures
        manager::to_activate(m, n, has_link) <==> has_link && !(manager::status_of(m, n).active
            is Active) && (n.kind is Timer || n.kind is Service || n.kind is Path || n.kind
            is Socket),
{
}

} // verus!
