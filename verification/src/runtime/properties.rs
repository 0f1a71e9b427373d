//! What `systemctl show` and `systemctl cat` print of a unit.

use crate::number;
use crate::number::large_decimal_string;
use crate::runtime::manager;
use crate::runtime::manager::Manager;
use crate::runtime::state;
use crate::runtime::state::{StatusView, UnitStatus};
use crate::text;
use crate::text::{join_by, same};
use crate::text_map::TextMap;
use crate::unit::calendar::{CalendarSpec, CalendarView};
use crate::unit::duration;
use crate::unit::duration::SdDuration;
use crate::unit::exec::{ExecCommand, ExecView};
use crate::unit::ini;
use crate::unit::ini::EntryView;
use crate::unit::name;
use crate::unit::name::{NameView, UnitName};
use crate::unit::name_map;
use crate::unit::name_set::NameSet;
use crate::unit::path_unit::{PathUnit, PathView};
use crate::unit::service::{Restart, ServiceType, ServiceUnit, ServiceView};
use crate::unit::socket::{SocketUnit, SocketView};
use crate::unit::spec;
use crate::unit::spec::{TypeView, Unit, UnitTypeData, UnitView};
use crate::unit::timer::{TimerUnit, TimerView};
use vstd::prelude::*;

verus! {

/// Properties by name.
pub type Properties = Map<Seq<char>, Seq<char>>;

/// `yes` or `no`.
pub open spec fn yes_no(b: bool) -> Seq<char> {
    if b {
        "yes"@
    } else {
        "no"@
    }
}

fn yesno(b: bool) -> (r: &'static str)
    ensures
        r@ == yes_no(b),
{
    if b {
        "yes"
    } else {
        "no"
    }
}

/// The properties with one that a unit may lack.
pub open spec fn with_opt(m: Properties, key: Seq<char>, v: Option<Seq<char>>) -> Properties {
    match v {
        Some(v) => m.insert(key, v),
        None => m,
    }
}

fn put_opt(out: &mut TextMap, key: &str, v: &Option<String>)
    ensures
        final(out)@ == with_opt(old(out)@, key@, text::opt_text(*v)),
{
    if let Some(v) = v {
        out.insert(key, v.as_str());
    }
}

/// The text of a name that a unit may lack.
pub open spec fn opt_name_text(n: Option<NameView>) -> Option<Seq<char>> {
    match n {
        Some(n) => Some(name::name_text(n)),
        None => None,
    }
}

fn put_opt_name(out: &mut TextMap, key: &str, v: &Option<UnitName>)
    ensures
        final(out)@ == with_opt(old(out)@, key@, opt_name_text(name::opt_name(*v))),
{
    if let Some(v) = v {
        out.insert(key, v.filename().as_str());
    }
}

/// A duration in microseconds.
pub open spec fn micros_text(d: SdDuration) -> Seq<char> {
    number::decimal(duration::span_or_max(d).total() / 1000) + "us"@
}

/// A duration that a unit may lack, in microseconds.
pub open spec fn opt_micros(d: Option<SdDuration>) -> Option<Seq<char>> {
    match d {
        Some(d) => Some(micros_text(d)),
        None => None,
    }
}

fn put_opt_micros(out: &mut TextMap, key: &str, d: Option<SdDuration>)
    ensures
        final(out)@ == with_opt(old(out)@, key@, opt_micros(d)),
{
    if let Some(d) = d {
        let mut v = large_decimal_string(d.as_std().as_micros());
        v.append("us");
        out.insert(key, v.as_str());
    }
}

/// Command lines as they were written, joined.
pub open spec fn commands_text(cs: Seq<ExecView>) -> Seq<char> {
    text::joined_by(cs.map_values(|c: ExecView| c.raw), "; "@)
}

fn join_commands(cs: &Vec<ExecCommand>) -> (r: String)
    ensures
        r@ == commands_text(crate::unit::exec::commands_view(cs@)),
{
    let ghost all = crate::unit::exec::commands_view(cs@).map_values(|c: ExecView| c.raw);
    let mut raws: Vec<String> = Vec::new();
    let mut i: usize = 0;
    proof {
        assert(text::texts(raws@) =~= all.take(0));
    }
    while i < cs.len()
        invariant
            i <= cs.len(),
            all == crate::unit::exec::commands_view(cs@).map_values(|c: ExecView| c.raw),
            text::texts(raws@) == all.take(i as int),
        decreases cs.len() - i,
    {
        let ghost before = raws@;
        raws.push(cs[i].raw.clone());
        proof {
            assert(all[i as int] == cs@[i as int]@.raw);
            assert(text::texts(raws@) =~= text::texts(before).push(all[i as int]));
            assert(all.take(i + 1) =~= all.take(i as int).push(all[i as int]));
        }
        i = i + 1;
    }
    proof {
        assert(all.take(all.len() as int) =~= all);
    }
    join_by(&raws, "; ")
}

/// Calendar events as they were written, joined.
pub open spec fn calendars_text(cs: Seq<CalendarView>) -> Seq<char> {
    text::joined_by(cs.map_values(|c: CalendarView| c.raw), " "@)
}

fn join_calendars(cs: &Vec<CalendarSpec>) -> (r: String)
    ensures
        r@ == calendars_text(crate::unit::calendar::calendars_view(cs@)),
{
    let ghost all = crate::unit::calendar::calendars_view(cs@).map_values(|c: CalendarView| c.raw);
    let mut raws: Vec<String> = Vec::new();
    let mut i: usize = 0;
    proof {
        assert(text::texts(raws@) =~= all.take(0));
    }
    while i < cs.len()
        invariant
            i <= cs.len(),
            all == crate::unit::calendar::calendars_view(cs@).map_values(|c: CalendarView| c.raw),
            text::texts(raws@) == all.take(i as int),
        decreases cs.len() - i,
    {
        let ghost before = raws@;
        raws.push(cs[i].raw.clone());
        proof {
            assert(all[i as int] == cs@[i as int]@.raw);
            assert(text::texts(raws@) =~= text::texts(before).push(all[i as int]));
            assert(all.take(i + 1) =~= all.take(i as int).push(all[i as int]));
        }
        i = i + 1;
    }
    proof {
        assert(all.take(all.len() as int) =~= all);
    }
    join_by(&raws, " ")
}

/// Names, joined by spaces.
pub open spec fn names_text(ns: Seq<NameView>) -> Seq<char> {
    text::joined_by(ns.map_values(|n: NameView| name::name_text(n)), " "@)
}

/// Names, joined by spaces.
pub fn install_join(set: &NameSet) -> (r: String)
    ensures
        r@ == names_text(set@),
{
    let ghost all = set@.map_values(|n: NameView| name::name_text(n));
    let mut out: Vec<String> = Vec::new();
    let mut i: usize = 0;
    proof {
        assert(text::texts(out@) =~= all.take(0));
    }
    while i < set.len()
        invariant
            i <= set@.len(),
            all == set@.map_values(|n: NameView| name::name_text(n)),
            text::texts(out@) == all.take(i as int),
        decreases set@.len() - i,
    {
        let ghost before = out@;
        out.push(set.get(i).filename());
        proof {
            assert(text::texts(out@) =~= text::texts(before).push(all[i as int]));
            assert(all.take(i + 1) =~= all.take(i as int).push(all[i as int]));
        }
        i = i + 1;
    }
    proof {
        assert(all.take(all.len() as int) =~= all);
    }
    join_by(&out, " ")
}

/// The `Type` property of a service type.
pub open spec fn type_text(t: ServiceType) -> Seq<char> {
    match t {
        ServiceType::Simple => "simple"@,
        ServiceType::Exec => "exec"@,
        ServiceType::Forking => "forking"@,
        ServiceType::Oneshot => "oneshot"@,
        ServiceType::Notify => "notify"@,
        ServiceType::NotifyReload => "notifyreload"@,
        ServiceType::Dbus => "dbus"@,
        ServiceType::Idle => "idle"@,
    }
}

fn type_name_of(t: ServiceType) -> (r: &'static str)
    ensures
        r@ == type_text(t),
{
    match t {
        ServiceType::Simple => "simple",
        ServiceType::Exec => "exec",
        ServiceType::Forking => "forking",
        ServiceType::Oneshot => "oneshot",
        ServiceType::Notify => "notify",
        ServiceType::NotifyReload => "notifyreload",
        ServiceType::Dbus => "dbus",
        ServiceType::Idle => "idle",
    }
}

/// The `Restart` property of a restart policy.
pub open spec fn restart_text(t: Restart) -> Seq<char> {
    match t {
        Restart::No => "no"@,
        Restart::OnSuccess => "onsuccess"@,
        Restart::OnFailure => "onfailure"@,
        Restart::OnAbnormal => "onabnormal"@,
        Restart::OnWatchdog => "onwatchdog"@,
        Restart::OnAbort => "onabort"@,
        Restart::Always => "always"@,
    }
}

fn restart_name(t: Restart) -> (r: &'static str)
    ensures
        r@ == restart_text(t),
{
    match t {
        Restart::No => "no",
        Restart::OnSuccess => "onsuccess",
        Restart::OnFailure => "onfailure",
        Restart::OnAbnormal => "onabnormal",
        Restart::OnWatchdog => "onwatchdog",
        Restart::OnAbort => "onabort",
        Restart::Always => "always",
    }
}

/// The properties that every unit has.
pub open spec fn common_properties(n: NameView, u: UnitView, st: StatusView) -> Properties {
    Map::<Seq<char>, Seq<char>>::empty().insert("Id"@, name::name_text(n)).insert(
        "Names"@,
        name::name_text(n),
    ).insert("Description"@, u.description).insert("LoadState"@, state::load_text(st.load)).insert(
        "ActiveState"@,
        state::active_text(st.active),
    ).insert("SubState"@, st.sub).insert(
        "FragmentPath"@,
        if u.fragment_paths.len() > 0 {
            u.fragment_paths[0]
        } else {
            ""@
        },
    ).insert("DefaultDependencies"@, yes_no(u.default_dependencies)).insert(
        "StopWhenUnneeded"@,
        yes_no(u.stop_when_unneeded),
    ).insert("RefuseManualStart"@, yes_no(u.refuse_manual_start)).insert(
        "RefuseManualStop"@,
        yes_no(u.refuse_manual_stop),
    ).insert("Documentation"@, text::joined_by(u.documentation, " "@))
}

/// The properties with those of a service.
pub open spec fn with_service(m: Properties, s: ServiceView) -> Properties {
    let a = m.insert("Type"@, type_text(s.service_type)).insert(
        "Restart"@,
        restart_text(s.restart),
    ).insert("RemainAfterExit"@, yes_no(s.remain_after_exit));
    let b = with_opt(
        with_opt(with_opt(a, "PIDFile"@, s.pid_file), "User"@, s.user),
        "Group"@,
        s.group,
    );
    let c = b.insert("ExecStart"@, commands_text(s.exec_start));
    let d = if s.exec_stop.len() > 0 {
        c.insert("ExecStop"@, commands_text(s.exec_stop))
    } else {
        c
    };
    with_opt(
        with_opt(d, "TimeoutStartUSec"@, opt_micros(s.timeout_start_sec)),
        "TimeoutStopUSec"@,
        opt_micros(s.timeout_stop_sec),
    )
}

/// The properties with those of a timer.
pub open spec fn with_timer(m: Properties, t: TimerView) -> Properties {
    with_opt(
        m.insert("OnCalendar"@, calendars_text(t.on_calendar)).insert(
            "Persistent"@,
            yes_no(t.persistent),
        ),
        "Unit"@,
        opt_name_text(t.unit),
    )
}

/// The properties with those of a path.
pub open spec fn with_path(m: Properties, p: PathView) -> Properties {
    with_opt(m, "Unit"@, opt_name_text(p.unit)).insert("MakeDirectory"@, yes_no(p.make_directory))
}

/// The properties with those of a socket.
pub open spec fn with_socket(m: Properties, s: SocketView) -> Properties {
    with_opt(m.insert("Accept"@, yes_no(s.accept)), "Service"@, opt_name_text(s.service))
}

/// The properties of a unit that have a meaning here.
pub open spec fn own_properties(n: NameView, u: UnitView, st: StatusView) -> Properties {
    let m = common_properties(n, u, st);
    let t = match u.kind {
        TypeView::Service(s) => with_service(m, s),
        TypeView::Timer(t) => with_timer(m, t),
        TypeView::Path(p) => with_path(m, p),
        TypeView::Socket(s) => with_socket(m, s),
        TypeView::Target | TypeView::Scope | TypeView::Other => m,
    };
    t.insert("WantedBy"@, names_text(u.install.wanted_by)).insert(
        "RequiredBy"@,
        names_text(u.install.required_by),
    )
}

/// Whether a property has a meaning here.
pub open spec fn is_own_key(key: Seq<char>) -> bool {
    ||| key == "Id"@
    ||| key == "Names"@
    ||| key == "Description"@
    ||| key == "LoadState"@
    ||| key == "ActiveState"@
    ||| key == "SubState"@
    ||| key == "FragmentPath"@
    ||| key == "DefaultDependencies"@
    ||| key == "StopWhenUnneeded"@
    ||| key == "RefuseManualStart"@
    ||| key == "RefuseManualStop"@
    ||| key == "Documentation"@
    ||| key == "Type"@
    ||| key == "Restart"@
    ||| key == "RemainAfterExit"@
    ||| key == "PIDFile"@
    ||| key == "User"@
    ||| key == "Group"@
    ||| key == "ExecStart"@
    ||| key == "ExecStop"@
    ||| key == "TimeoutStartUSec"@
    ||| key == "TimeoutStopUSec"@
    ||| key == "OnCalendar"@
    ||| key == "Persistent"@
    ||| key == "Unit"@
    ||| key == "MakeDirectory"@
    ||| key == "Accept"@
    ||| key == "Service"@
    ||| key == "WantedBy"@
    ||| key == "RequiredBy"@
}

/// The properties of a unit are among these.
pub(crate) proof fn lemma_own_keys(n: NameView, u: UnitView, st: StatusView, key: Seq<char>)
    requires
        own_properties(n, u, st).contains_key(key),
    ensures
        is_own_key(key),
{
}

/// The directives of a unit's own section that are kept verbatim, with their
/// values.
pub open spec fn kept_by_type(u: UnitView) -> Seq<(Seq<char>, Seq<char>)> {
    match u.kind {
        TypeView::Service(s) => s.passthrough.map_values(
            |t: (Seq<char>, Seq<char>, Seq<char>)| (t.1, t.2),
        ),
        TypeView::Socket(s) => s.passthrough,
        _ => seq![],
    }
}

/// The entries of `[Unit]` that have no effect without a Linux kernel.
pub open spec fn kept_in_unit(es: Seq<EntryView>) -> Seq<(Seq<char>, Seq<char>)>
    decreases es.len(),
{
    if es.len() == 0 {
        seq![]
    } else if spec::unit_linux_key(es.last().key) {
        kept_in_unit(es.drop_last()).push((es.last().key, es.last().value))
    } else {
        kept_in_unit(es.drop_last())
    }
}

/// The directives that a unit keeps verbatim, with their values.
pub open spec fn kept_directives(u: UnitView) -> Seq<(Seq<char>, Seq<char>)> {
    kept_by_type(u) + kept_in_unit(ini::entries_or_none(u.raw, "Unit"@))
}

/// The properties with directives that were kept verbatim, each with the last
/// value that was given; a property that is there already stays.
pub open spec fn with_kept(m: Properties, kept: Seq<(Seq<char>, Seq<char>)>) -> Properties
    decreases kept.len(),
{
    if kept.len() == 0 {
        m
    } else {
        let (key, value) = kept.last();
        with_kept(
            if m.contains_key(key) {
                m
            } else {
                m.insert(key, value)
            },
            kept.drop_last(),
        )
    }
}

/// All properties of a unit.
pub open spec fn properties(n: NameView, u: UnitView, st: StatusView) -> Properties {
    with_kept(own_properties(n, u, st), kept_directives(u))
}

proof fn lemma_with_kept(m: Properties, kept: Seq<(Seq<char>, Seq<char>)>, key: Seq<char>)
    ensures
        m.contains_key(key) ==> with_kept(m, kept).contains_key(key) && with_kept(m, kept)[key]
            == m[key],
    decreases kept.len(),
{
    if kept.len() > 0 {
        let (k, v) = kept.last();
        let n = if m.contains_key(k) {
            m
        } else {
            m.insert(k, v)
        };
        lemma_with_kept(n, kept.drop_last(), key);
    }
}

proof fn lemma_kept_value(m: Properties, kept: Seq<(Seq<char>, Seq<char>)>, i: int)
    requires
        0 <= i < kept.len(),
        !m.contains_key(kept[i].0),
        forall|j: int| i < j < kept.len() ==> (#[trigger] kept[j]).0 != kept[i].0,
    ensures
        with_kept(m, kept).contains_key(kept[i].0),
        with_kept(m, kept)[kept[i].0] == kept[i].1,
    decreases kept.len(),
{
    let (k, v) = kept.last();
    let n = if m.contains_key(k) {
        m
    } else {
        m.insert(k, v)
    };
    let rest = kept.drop_last();
    if i == rest.len() {
        lemma_with_kept(n, rest, k);
    } else {
        assert(kept[rest.len() as int].0 == k);
        assert forall|j: int| i < j < rest.len() implies (#[trigger] rest[j]).0 != rest[i].0 by {
            assert(rest[j] == kept[j]);
        }
        lemma_kept_value(n, rest, i);
    }
}

/// A directive that a unit keeps verbatim is shown with its value, the last one
/// where it was given more than once, and never hides a property.
pub proof fn kept_directives_are_shown(n: NameView, u: UnitView, st: StatusView)
    ensures
        forall|key: Seq<char>| #[trigger]
            own_properties(n, u, st).contains_key(key) ==> properties(n, u, st).contains_key(key)
                && properties(n, u, st)[key] == own_properties(n, u, st)[key],
        forall|i: int|
            0 <= i < kept_directives(u).len() && !own_properties(n, u, st).contains_key(
                (#[trigger] kept_directives(u)[i]).0,
            ) && (forall|j: int|
                i < j < kept_directives(u).len() ==> (#[trigger] kept_directives(u)[j]).0
                    != kept_directives(u)[i].0) ==> properties(n, u, st).contains_key(
                kept_directives(u)[i].0,
            ) && properties(n, u, st)[kept_directives(u)[i].0] == kept_directives(u)[i].1,
{
    let own = own_properties(n, u, st);
    let kept = kept_directives(u);
    assert forall|key: Seq<char>| #[trigger] own.contains_key(key) implies properties(
        n,
        u,
        st,
    ).contains_key(key) && properties(n, u, st)[key] == own[key] by {
        lemma_with_kept(own, kept, key);
    }
    assert forall|i: int|
        0 <= i < kept.len() && !own.contains_key((#[trigger] kept[i]).0) && (forall|j: int|
            i < j < kept.len() ==> (#[trigger] kept[j]).0 != kept[i].0) implies properties(
        n,
        u,
        st,
    ).contains_key(kept[i].0) && properties(n, u, st)[kept[i].0] == kept[i].1 by {
        lemma_kept_value(own, kept, i);
    }
}

fn put_common(out: &mut TextMap, n: &UnitName, u: &Unit, st: &UnitStatus)
    requires
        old(out)@ == Map::<Seq<char>, Seq<char>>::empty(),
    ensures
        final(out)@ == common_properties(n@, u@, st@),
{
    let id = n.filename();
    out.insert("Id", id.as_str());
    out.insert("Names", id.as_str());
    out.insert("Description", u.description.as_str());
    out.insert("LoadState", st.load.to_text());
    out.insert("ActiveState", st.active.to_text());
    out.insert("SubState", st.sub.as_str());
    let path = if u.fragment_paths.len() > 0 {
        u.fragment_paths[0].as_str()
    } else {
        ""
    };
    out.insert("FragmentPath", path);
    out.insert("DefaultDependencies", yesno(u.default_dependencies));
    out.insert("StopWhenUnneeded", yesno(u.stop_when_unneeded));
    out.insert("RefuseManualStart", yesno(u.refuse_manual_start));
    out.insert("RefuseManualStop", yesno(u.refuse_manual_stop));
    out.insert("Documentation", join_by(&u.documentation, " ").as_str());
}

fn put_service(out: &mut TextMap, s: &ServiceUnit)
    ensures
        final(out)@ == with_service(old(out)@, s@),
{
    out.insert("Type", type_name_of(s.service_type));
    out.insert("Restart", restart_name(s.restart));
    out.insert("RemainAfterExit", yesno(s.remain_after_exit));
    put_opt(out, "PIDFile", &s.pid_file);
    put_opt(out, "User", &s.user);
    put_opt(out, "Group", &s.group);
    out.insert("ExecStart", join_commands(&s.exec_start).as_str());
    if s.exec_stop.len() > 0 {
        out.insert("ExecStop", join_commands(&s.exec_stop).as_str());
    }
    put_opt_micros(out, "TimeoutStartUSec", s.timeout_start_sec);
    put_opt_micros(out, "TimeoutStopUSec", s.timeout_stop_sec);
}

fn put_timer(out: &mut TextMap, t: &TimerUnit)
    ensures
        final(out)@ == with_timer(old(out)@, t@),
{
    out.insert("OnCalendar", join_calendars(&t.on_calendar).as_str());
    out.insert("Persistent", yesno(t.persistent));
    put_opt_name(out, "Unit", &t.unit);
}

fn put_path(out: &mut TextMap, p: &PathUnit)
    ensures
        final(out)@ == with_path(old(out)@, p@),
{
    put_opt_name(out, "Unit", &p.unit);
    out.insert("MakeDirectory", yesno(p.make_directory));
}

fn put_socket(out: &mut TextMap, s: &SocketUnit)
    ensures
        final(out)@ == with_socket(old(out)@, s@),
{
    out.insert("Accept", yesno(s.accept));
    put_opt_name(out, "Service", &s.service);
}

fn put_kind(out: &mut TextMap, kind: &UnitTypeData)
    ensures
        final(out)@ == match kind@ {
            TypeView::Service(s) => with_service(old(out)@, s),
            TypeView::Timer(t) => with_timer(old(out)@, t),
            TypeView::Path(p) => with_path(old(out)@, p),
            TypeView::Socket(s) => with_socket(old(out)@, s),
            TypeView::Target | TypeView::Scope | TypeView::Other => old(out)@,
        },
{
    match kind {
        UnitTypeData::Service(s) => put_service(out, s),
        UnitTypeData::Timer(t) => put_timer(out, t),
        UnitTypeData::Path(p) => put_path(out, p),
        UnitTypeData::Socket(s) => put_socket(out, s),
        UnitTypeData::Target(_) | UnitTypeData::Scope(_) | UnitTypeData::Other => {},
    }
}

fn put_missing(out: &mut TextMap, key: &str, value: &str)
    ensures
        final(out)@ == if old(out)@.contains_key(key@) {
            old(out)@
        } else {
            old(out)@.insert(key@, value@)
        },
{
    if out.get(key).is_none() {
        out.insert(key, value);
    }
}

/// What is kept behind other directives comes before them.
proof fn lemma_with_kept_add(
    m: Properties,
    a: Seq<(Seq<char>, Seq<char>)>,
    b: Seq<(Seq<char>, Seq<char>)>,
)
    ensures
        with_kept(m, a + b) == with_kept(with_kept(m, b), a),
    decreases b.len(),
{
    if b.len() == 0 {
        assert(a + b =~= a);
    } else {
        let (k, v) = b.last();
        let n = if m.contains_key(k) {
            m
        } else {
            m.insert(k, v)
        };
        assert((a + b).drop_last() =~= a + b.drop_last());
        assert((a + b).last() == b.last());
        lemma_with_kept_add(n, a, b.drop_last());
    }
}

fn put_kept(out: &mut TextMap, u: &Unit)
    ensures
        final(out)@ == with_kept(old(out)@, kept_directives(u@)),
{
    proof {
        lemma_with_kept_add(
            out@,
            kept_by_type(u@),
            kept_in_unit(ini::entries_or_none(u@.raw, "Unit"@)),
        );
    }
    put_kept_in_unit(out, u);
    put_kept_by_type(out, u);
}

fn put_kept_in_unit(out: &mut TextMap, u: &Unit)
    ensures
        final(out)@ == with_kept(
            old(out)@,
            kept_in_unit(ini::entries_or_none(u@.raw, "Unit"@)),
        ),
{
    let ghost all = ini::entries_or_none(u@.raw, "Unit"@);
    let ghost whole = with_kept(out@, kept_in_unit(all));
    if let Some(es) = u.raw.get("Unit") {
        let mut i: usize = es.len();
        proof {
            assert(all.take(all.len() as int) =~= all);
        }
        while i > 0
            invariant
                i <= es.len(),
                all == ini::entries_view(es@),
                whole == with_kept(out@, kept_in_unit(all.take(i as int))),
            decreases i,
        {
            i = i - 1;
            let e = &es[i];
            proof {
                assert(all.take(i + 1).drop_last() =~= all.take(i as int));
                assert(all.take(i + 1).last() == e@);
            }
            if same(e.key.as_str(), "JoinsNamespaceOf") {
                let ghost before = kept_in_unit(all.take(i as int));
                proof {
                    assert(before.push((e@.key, e@.value)).drop_last() =~= before);
                }
                put_missing(out, e.key.as_str(), e.value.as_str());
            }
        }
        proof {
            assert(all.take(0) =~= seq![]);
        }
    }
}

fn put_kept_by_type(out: &mut TextMap, u: &Unit)
    ensures
        final(out)@ == with_kept(old(out)@, kept_by_type(u@)),
{
    let ghost kept = kept_by_type(u@);
    let ghost whole = with_kept(out@, kept);
    match &u.kind {
        UnitTypeData::Service(s) => {
            let mut i: usize = s.passthrough.len();
            proof {
                assert(kept.take(kept.len() as int) =~= kept);
            }
            while i > 0
                invariant
                    i <= s.passthrough.len(),
                    kept == s@.passthrough.map_values(
                        |t: (Seq<char>, Seq<char>, Seq<char>)| (t.1, t.2),
                    ),
                    whole == with_kept(out@, kept.take(i as int)),
                decreases i,
            {
                i = i - 1;
                let t = &s.passthrough[i];
                proof {
                    assert(kept.take(i + 1).drop_last() =~= kept.take(i as int));
                    assert(kept.take(i + 1).last() == (t.1@, t.2@));
                }
                put_missing(out, t.1.as_str(), t.2.as_str());
            }
        },
        UnitTypeData::Socket(s) => {
            let mut i: usize = s.passthrough.len();
            proof {
                assert(kept.take(kept.len() as int) =~= kept);
            }
            while i > 0
                invariant
                    i <= s.passthrough.len(),
                    kept == s@.passthrough,
                    whole == with_kept(out@, kept.take(i as int)),
                decreases i,
            {
                i = i - 1;
                let t = &s.passthrough[i];
                proof {
                    assert(kept.take(i + 1).drop_last() =~= kept.take(i as int));
                    assert(kept.take(i + 1).last() == (t.0@, t.1@));
                }
                put_missing(out, t.0.as_str(), t.1.as_str());
            }
        },
        _ => {},
    }
}

/// What is said of a unit that is not loaded.
pub open spec fn not_loaded(n: NameView) -> Seq<char> {
    "unit not loaded: "@ + name::name_text(n)
}

fn not_loaded_text(n: &UnitName) -> (r: String)
    ensures
        r@ == not_loaded(n@),
{
    let mut e = "unit not loaded: ".to_owned();
    e.append(n.filename().as_str());
    e
}

impl Manager {
    /// `cat` rendering: main + drop-ins concatenated.
    pub fn cat(&self, n: &UnitName) -> (r: Result<String, String>)
        ensures
            match name_map::found(self@.units, n@) {
                Some(lu) => r matches Ok(s) && s@ == lu.unit.source,
                None => r matches Err(e) && e@ == not_loaded(n@),
            },
    {
        match self.units.lookup(n) {
            Some(lu) => Ok(lu.unit.render_cat()),
            None => Err(not_loaded_text(n)),
        }
    }

    /// All unit properties for `systemctl show`.
    pub fn show_properties(&self, n: &UnitName) -> (r: Result<TextMap, String>)
        ensures
            match name_map::found(self@.units, n@) {
                Some(lu) => r matches Ok(m) && m@ == properties(
                    n@,
                    lu.unit,
                    manager::status_of(self@, n@),
                ),
                None => r matches Err(e) && e@ == not_loaded(n@),
            },
    {
        let lu = match self.units.lookup(n) {
            Some(lu) => lu,
            None => {
                return Err(not_loaded_text(n));
            },
        };
        let st = self.unit_status(n);
        let mut out = TextMap::new();
        put_common(&mut out, n, &lu.unit, &st);
        put_kind(&mut out, &lu.unit.kind);
        out.insert("WantedBy", install_join(&lu.unit.install.wanted_by).as_str());
        out.insert("RequiredBy", install_join(&lu.unit.install.required_by).as_str());
        put_kept(&mut out, &lu.unit);
        Ok(out)
    }
}

} // verus!
