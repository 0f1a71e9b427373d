//! The unified `Unit` AST and the typed parser that turns an `Ini` plus a
//! unit name into a fully resolved unit.
//!
//! Directive coverage follows `man systemd.unit`, `systemd.service`,
//! `systemd.socket`, `systemd.timer`, `systemd.path`. Linux-kernel-only
//! directives are accepted with a warning (see [`crate::unit::linux_only`]);
//! unknown directives also warn but are preserved on the raw `Ini` for
//! round-trip.

use crate::text;
use crate::text::{chars_of, same, string_of, strip_prefix};
use crate::unit::condition;
use crate::unit::condition::{parse_bool, Condition, Conditions, ConditionsView};
use crate::unit::deps;
use crate::unit::deps::{DepsView, UnitDeps};
use crate::unit::duration;
use crate::unit::duration::{parse_duration, SdDuration};
use crate::unit::error;
use crate::unit::error::{ParseError, ParseErrorView, ParseWarning, ParseWarningView};
use crate::unit::ini;
use crate::unit::ini::{copy_entries, parse, Entry, EntryView, Ini, SectionView};
use crate::unit::install;
use crate::unit::install::{Install, InstallView};
use crate::unit::name;
use crate::unit::name::{NameView, UnitKind, UnitName};
use crate::unit::name_set;
use crate::unit::parse_path;
use crate::unit::parse_path::parse_path;
use crate::unit::parse_service;
use crate::unit::parse_service::parse_service;
use crate::unit::parse_socket;
use crate::unit::parse_socket::parse_socket;
use crate::unit::parse_timer;
use crate::unit::parse_timer::parse_timer;
use crate::unit::path_unit;
use crate::unit::path_unit::{PathUnit, PathView};
use crate::unit::service;
use crate::unit::service::{ServiceUnit, ServiceView};
use crate::unit::socket;
use crate::unit::socket::{SocketUnit, SocketView};
use crate::unit::target::{ScopeUnit, TargetUnit};
use crate::unit::timer;
use crate::unit::timer::{TimerUnit, TimerView};
use crate::unit::values;
use crate::unit::values::{bad, parse_list, parse_units_list};
use vstd::prelude::*;

verus! {

/// Per-unit-type typed data.
pub enum UnitTypeData {
    /// A service.
    Service(ServiceUnit),
    /// A socket.
    Socket(SocketUnit),
    /// A timer.
    Timer(TimerUnit),
    /// A path.
    Path(PathUnit),
    /// A target.
    Target(TargetUnit),
    /// A scope.
    Scope(ScopeUnit),
    /// Mount/Automount/Swap/Device/Slice — parsed names only; bodies inert.
    Other,
}

/// [`UnitTypeData`] by its characters.
pub enum TypeView {
    Service(ServiceView),
    Socket(SocketView),
    Timer(TimerView),
    Path(PathView),
    Target,
    Scope,
    Other,
}

impl View for UnitTypeData {
    type V = TypeView;

    open spec fn view(&self) -> TypeView {
        match *self {
            UnitTypeData::Service(s) => TypeView::Service(s@),
            UnitTypeData::Socket(s) => TypeView::Socket(s@),
            UnitTypeData::Timer(t) => TypeView::Timer(t@),
            UnitTypeData::Path(p) => TypeView::Path(p@),
            UnitTypeData::Target(_) => TypeView::Target,
            UnitTypeData::Scope(_) => TypeView::Scope,
            UnitTypeData::Other => TypeView::Other,
        }
    }
}

/// The fully-parsed unit.
pub struct Unit {
    /// Unit name.
    pub name: UnitName,
    /// Fragment paths in load order (main file then drop-ins).
    pub fragment_paths: Vec<String>,
    /// `Description=`.
    pub description: String,
    /// `Documentation=` URLs/paths.
    pub documentation: Vec<String>,
    /// `[Unit]` deps.
    pub deps: UnitDeps,
    /// `[Install]`.
    pub install: Install,
    /// `Condition*=` / `Assert*=`.
    pub conditions: Conditions,
    /// `DefaultDependencies=` (default true).
    pub default_dependencies: bool,
    /// `StopWhenUnneeded=`.
    pub stop_when_unneeded: bool,
    /// `RefuseManualStart=`.
    pub refuse_manual_start: bool,
    /// `RefuseManualStop=`.
    pub refuse_manual_stop: bool,
    /// `AllowIsolate=`.
    pub allow_isolate: bool,
    /// `JobTimeoutSec=`.
    pub job_timeout_sec: Option<SdDuration>,
    /// `JobRunningTimeoutSec=`.
    pub job_running_timeout_sec: Option<SdDuration>,
    /// `OnFailureJobMode=`.
    pub on_failure_job_mode: Option<String>,
    /// `IgnoreOnIsolate=`.
    pub ignore_on_isolate: bool,
    /// `CollectMode=`.
    pub collect_mode: Option<String>,
    /// `FailureAction=`.
    pub failure_action: Option<String>,
    /// `SuccessAction=`.
    pub success_action: Option<String>,
    /// `RebootArgument=`.
    pub reboot_argument: Option<String>,
    /// `SourcePath=`.
    pub source_path: Option<String>,
    /// Per-type typed data.
    pub kind: UnitTypeData,
    /// Preserved raw ini for `cat`/`show`.
    pub raw: Ini,
    /// What its files hold (main file then drop-ins).
    pub source: String,
}

/// A [`Unit`] by its characters.
pub struct UnitView {
    pub name: NameView,
    pub fragment_paths: Seq<Seq<char>>,
    pub description: Seq<char>,
    pub documentation: Seq<Seq<char>>,
    pub deps: DepsView,
    pub install: InstallView,
    pub conditions: ConditionsView,
    pub default_dependencies: bool,
    pub stop_when_unneeded: bool,
    pub refuse_manual_start: bool,
    pub refuse_manual_stop: bool,
    pub allow_isolate: bool,
    pub job_timeout_sec: Option<SdDuration>,
    pub job_running_timeout_sec: Option<SdDuration>,
    pub on_failure_job_mode: Option<Seq<char>>,
    pub ignore_on_isolate: bool,
    pub collect_mode: Option<Seq<char>>,
    pub failure_action: Option<Seq<char>>,
    pub success_action: Option<Seq<char>>,
    pub reboot_argument: Option<Seq<char>>,
    pub source_path: Option<Seq<char>>,
    pub kind: TypeView,
    pub raw: Seq<SectionView>,
    pub source: Seq<char>,
}

impl View for Unit {
    type V = UnitView;

    open spec fn view(&self) -> UnitView {
        UnitView {
            name: self.name@,
            fragment_paths: text::texts(self.fragment_paths@),
            description: self.description@,
            documentation: text::texts(self.documentation@),
            deps: self.deps@,
            install: self.install@,
            conditions: self.conditions@,
            default_dependencies: self.default_dependencies,
            stop_when_unneeded: self.stop_when_unneeded,
            refuse_manual_start: self.refuse_manual_start,
            refuse_manual_stop: self.refuse_manual_stop,
            allow_isolate: self.allow_isolate,
            job_timeout_sec: self.job_timeout_sec,
            job_running_timeout_sec: self.job_running_timeout_sec,
            on_failure_job_mode: text::opt_text(self.on_failure_job_mode),
            ignore_on_isolate: self.ignore_on_isolate,
            collect_mode: text::opt_text(self.collect_mode),
            failure_action: text::opt_text(self.failure_action),
            success_action: text::opt_text(self.success_action),
            reboot_argument: text::opt_text(self.reboot_argument),
            source_path: text::opt_text(self.source_path),
            kind: self.kind@,
            raw: self.raw@,
            source: self.source@,
        }
    }
}

/// The data of a kind before anything is parsed.
pub open spec fn empty_kind(kind: UnitKind) -> TypeView {
    match kind {
        UnitKind::Service => TypeView::Service(service::empty_service()),
        UnitKind::Socket => TypeView::Socket(socket::empty_socket()),
        UnitKind::Timer => TypeView::Timer(timer::empty_timer()),
        UnitKind::Path => TypeView::Path(path_unit::empty_path()),
        UnitKind::Target => TypeView::Target,
        UnitKind::Scope => TypeView::Scope,
        _ => TypeView::Other,
    }
}

/// A unit of which only the name is known.
pub open spec fn empty_unit(name: NameView) -> UnitView {
    UnitView {
        name,
        fragment_paths: seq![],
        description: seq![],
        documentation: seq![],
        deps: deps::no_deps(),
        install: install::empty_install(),
        conditions: condition::no_conditions(),
        default_dependencies: true,
        stop_when_unneeded: false,
        refuse_manual_start: false,
        refuse_manual_stop: false,
        allow_isolate: false,
        job_timeout_sec: None,
        job_running_timeout_sec: None,
        on_failure_job_mode: None,
        ignore_on_isolate: false,
        collect_mode: None,
        failure_action: None,
        success_action: None,
        reboot_argument: None,
        source_path: None,
        kind: empty_kind(name.kind),
        raw: seq![],
        source: ""@,
    }
}

impl Unit {
    /// Bootstrap a default-empty Unit for the given name.
    pub fn empty(name: UnitName) -> (r: Self)
        ensures
            r@ == empty_unit(name@),
    {
        let kind = match name.kind {
            UnitKind::Service => UnitTypeData::Service(ServiceUnit::default()),
            UnitKind::Socket => UnitTypeData::Socket(SocketUnit::default()),
            UnitKind::Timer => UnitTypeData::Timer(TimerUnit::default()),
            UnitKind::Path => UnitTypeData::Path(PathUnit::default()),
            UnitKind::Target => UnitTypeData::Target(TargetUnit),
            UnitKind::Scope => UnitTypeData::Scope(ScopeUnit),
            _ => UnitTypeData::Other,
        };
        let r = Unit {
            name,
            fragment_paths: Vec::new(),
            description: String::new(),
            documentation: Vec::new(),
            deps: UnitDeps::default(),
            install: Install::default(),
            conditions: Conditions::default(),
            default_dependencies: true,
            stop_when_unneeded: false,
            refuse_manual_start: false,
            refuse_manual_stop: false,
            allow_isolate: false,
            job_timeout_sec: None,
            job_running_timeout_sec: None,
            on_failure_job_mode: None,
            ignore_on_isolate: false,
            collect_mode: None,
            failure_action: None,
            success_action: None,
            reboot_argument: None,
            source_path: None,
            kind,
            raw: Ini::new(),
            source: "".to_owned(),
        };
        proof {
            assert(r@.fragment_paths =~= seq![]);
            assert(r@.documentation =~= seq![]);
        }
        r
    }

    /// `cat`-style output: the unit's files, verbatim.
    pub fn render_cat(&self) -> (r: String)
        ensures
            r@ == self@.source,
    {
        self.source.clone()
    }
}

/// Result of parsing: unit + warnings.
pub struct ParsedUnit {
    /// The parsed unit.
    pub unit: Unit,
    /// Any non-fatal warnings.
    pub warnings: Vec<ParseWarning>,
}

// ---------------------------------------------------------------------
// [Unit]
// ---------------------------------------------------------------------

/// Directives that declare a relation to other units.
pub open spec fn deps_directive(m: DepsView, key: Seq<char>, v: Seq<char>) -> Option<DepsView> {
    let names = values::names_among(text::items(v, true));
    if key == "After"@ {
        Some(DepsView { after: name_set::extended(m.after, names), ..m })
    } else if key == "Before"@ {
        Some(DepsView { before: name_set::extended(m.before, names), ..m })
    } else if key == "Wants"@ {
        Some(DepsView { wants: name_set::extended(m.wants, names), ..m })
    } else if key == "Requires"@ {
        Some(DepsView { requires: name_set::extended(m.requires, names), ..m })
    } else if key == "Requisite"@ {
        Some(DepsView { requisite: name_set::extended(m.requisite, names), ..m })
    } else if key == "BindsTo"@ {
        Some(DepsView { binds_to: name_set::extended(m.binds_to, names), ..m })
    } else if key == "PartOf"@ {
        Some(DepsView { part_of: name_set::extended(m.part_of, names), ..m })
    } else if key == "Upholds"@ {
        Some(DepsView { upholds: name_set::extended(m.upholds, names), ..m })
    } else if key == "Conflicts"@ {
        Some(DepsView { conflicts: name_set::extended(m.conflicts, names), ..m })
    } else if key == "OnFailure"@ {
        Some(DepsView { on_failure: name_set::extended(m.on_failure, names), ..m })
    } else if key == "OnSuccess"@ {
        Some(DepsView { on_success: name_set::extended(m.on_success, names), ..m })
    } else if key == "PropagatesReloadTo"@ {
        Some(DepsView { propagates_reload_to: name_set::extended(m.propagates_reload_to, names), ..m })
    } else if key == "ReloadPropagatedFrom"@ {
        Some(DepsView { reload_propagated_from: name_set::extended(m.reload_propagated_from, names), ..m })
    } else if key == "PropagatesStopTo"@ {
        Some(DepsView { propagates_stop_to: name_set::extended(m.propagates_stop_to, names), ..m })
    } else if key == "StopPropagatedFrom"@ {
        Some(DepsView { stop_propagated_from: name_set::extended(m.stop_propagated_from, names), ..m })
    } else if key == "JoinsNamespaceOf"@ {
        Some(DepsView { joins_namespace_of: name_set::extended(m.joins_namespace_of, names), ..m })
    } else {
        None
    }
}

/// Declares a relation to other units.
fn add_dependency(d: &mut UnitDeps, key: &str, v: &str) -> (r: bool)
    ensures
        match deps_directive(old(d)@, key@, v@) {
            Some(n) => r && final(d)@ == n,
            None => !r && final(d)@ == old(d)@,
        },
{
    if same(key, "After") {
        d.after.extend(parse_units_list(v));
    } else if same(key, "Before") {
        d.before.extend(parse_units_list(v));
    } else if same(key, "Wants") {
        d.wants.extend(parse_units_list(v));
    } else if same(key, "Requires") {
        d.requires.extend(parse_units_list(v));
    } else if same(key, "Requisite") {
        d.requisite.extend(parse_units_list(v));
    } else if same(key, "BindsTo") {
        d.binds_to.extend(parse_units_list(v));
    } else if same(key, "PartOf") {
        d.part_of.extend(parse_units_list(v));
    } else if same(key, "Upholds") {
        d.upholds.extend(parse_units_list(v));
    } else if same(key, "Conflicts") {
        d.conflicts.extend(parse_units_list(v));
    } else if same(key, "OnFailure") {
        d.on_failure.extend(parse_units_list(v));
    } else if same(key, "OnSuccess") {
        d.on_success.extend(parse_units_list(v));
    } else if same(key, "PropagatesReloadTo") {
        d.propagates_reload_to.extend(parse_units_list(v));
    } else if same(key, "ReloadPropagatedFrom") {
        d.reload_propagated_from.extend(parse_units_list(v));
    } else if same(key, "PropagatesStopTo") {
        d.propagates_stop_to.extend(parse_units_list(v));
    } else if same(key, "StopPropagatedFrom") {
        d.stop_propagated_from.extend(parse_units_list(v));
    } else if same(key, "JoinsNamespaceOf") {
        d.joins_namespace_of.extend(parse_units_list(v));
    } else {
        return false;
    }
    true
}

/// Directives that are a text or a duration.
pub open spec fn unit_text(m: UnitView, key: Seq<char>, v: Seq<char>) -> Option<
    Result<UnitView, Seq<char>>,
> {
    if key == "Description"@ {
        Some(Ok(UnitView { description: v, ..m }))
    } else if key == "Documentation"@ {
        Some(Ok(UnitView { documentation: m.documentation + text::items(v, true), ..m }))
    } else if key == "OnFailureJobMode"@ {
        Some(Ok(UnitView { on_failure_job_mode: Some(v), ..m }))
    } else if key == "CollectMode"@ {
        Some(Ok(UnitView { collect_mode: Some(v), ..m }))
    } else if key == "FailureAction"@ {
        Some(Ok(UnitView { failure_action: Some(v), ..m }))
    } else if key == "SuccessAction"@ {
        Some(Ok(UnitView { success_action: Some(v), ..m }))
    } else if key == "RebootArgument"@ {
        Some(Ok(UnitView { reboot_argument: Some(v), ..m }))
    } else if key == "SourcePath"@ {
        Some(Ok(UnitView { source_path: Some(v), ..m }))
    } else if key == "JobTimeoutSec"@ {
        Some(
            match duration::duration_of(v, 1) {
                Ok(d) => Ok(UnitView { job_timeout_sec: Some(d), ..m }),
                Err(reason) => Err(reason),
            },
        )
    } else if key == "JobRunningTimeoutSec"@ {
        Some(
            match duration::duration_of(v, 1) {
                Ok(d) => Ok(UnitView { job_running_timeout_sec: Some(d), ..m }),
                Err(reason) => Err(reason),
            },
        )
    } else {
        None
    }
}

/// Sets a text or a duration.
fn set_unit_text(unit: &mut Unit, key: &str, v: &str) -> (r: Result<bool, String>)
    ensures
        match r {
            Ok(true) => unit_text(old(unit)@, key@, v@) == Some(
                Ok::<UnitView, Seq<char>>(final(unit)@),
            ),
            Ok(false) => unit_text(old(unit)@, key@, v@) is None && final(unit)@ == old(unit)@,
            Err(reason) => unit_text(old(unit)@, key@, v@) == Some(
                Err::<UnitView, Seq<char>>(reason@),
            ),
        },
{
    if same(key, "Description") {
        unit.description = v.to_owned();
    } else if same(key, "Documentation") {
        let ghost before = unit.documentation@;
        let mut more = parse_list(v);
        let ghost added = more@;
        unit.documentation.append(&mut more);
        proof {
            assert(text::texts(unit.documentation@) =~= text::texts(before) + text::texts(added));
        }
    } else if same(key, "OnFailureJobMode") {
        unit.on_failure_job_mode = Some(v.to_owned());
    } else if same(key, "CollectMode") {
        unit.collect_mode = Some(v.to_owned());
    } else if same(key, "FailureAction") {
        unit.failure_action = Some(v.to_owned());
    } else if same(key, "SuccessAction") {
        unit.success_action = Some(v.to_owned());
    } else if same(key, "RebootArgument") {
        unit.reboot_argument = Some(v.to_owned());
    } else if same(key, "SourcePath") {
        unit.source_path = Some(v.to_owned());
    } else if same(key, "JobTimeoutSec") {
        match parse_duration(v, 1) {
            Ok(d) => {
                unit.job_timeout_sec = Some(d);
            },
            Err(reason) => {
                return Err(reason);
            },
        }
    } else if same(key, "JobRunningTimeoutSec") {
        match parse_duration(v, 1) {
            Ok(d) => {
                unit.job_running_timeout_sec = Some(d);
            },
            Err(reason) => {
                return Err(reason);
            },
        }
    } else {
        return Ok(false);
    }
    Ok(true)
}

/// Directives that are a boolean.
pub open spec fn unit_switch(m: UnitView, key: Seq<char>, v: Seq<char>) -> Option<
    Result<UnitView, Seq<char>>,
> {
    if key == "DefaultDependencies"@ {
        Some(
            match condition::bool_of(v) {
                Some(b) => Ok(UnitView { default_dependencies: b, ..m }),
                None => Err("expected bool"@),
            },
        )
    } else if key == "StopWhenUnneeded"@ {
        Some(
            match condition::bool_of(v) {
                Some(b) => Ok(UnitView { stop_when_unneeded: b, ..m }),
                None => Err("expected bool"@),
            },
        )
    } else if key == "RefuseManualStart"@ {
        Some(
            match condition::bool_of(v) {
                Some(b) => Ok(UnitView { refuse_manual_start: b, ..m }),
                None => Err("expected bool"@),
            },
        )
    } else if key == "RefuseManualStop"@ {
        Some(
            match condition::bool_of(v) {
                Some(b) => Ok(UnitView { refuse_manual_stop: b, ..m }),
                None => Err("expected bool"@),
            },
        )
    } else if key == "AllowIsolate"@ {
        Some(
            match condition::bool_of(v) {
                Some(b) => Ok(UnitView { allow_isolate: b, ..m }),
                None => Err("expected bool"@),
            },
        )
    } else if key == "IgnoreOnIsolate"@ {
        Some(
            match condition::bool_of(v) {
                Some(b) => Ok(UnitView { ignore_on_isolate: b, ..m }),
                None => Err("expected bool"@),
            },
        )
    } else {
        None
    }
}

/// Sets a boolean.
fn set_unit_switch(unit: &mut Unit, key: &str, v: &str) -> (r: Result<bool, String>)
    ensures
        match r {
            Ok(true) => unit_switch(old(unit)@, key@, v@) == Some(
                Ok::<UnitView, Seq<char>>(final(unit)@),
            ),
            Ok(false) => unit_switch(old(unit)@, key@, v@) is None && final(unit)@ == old(unit)@,
            Err(reason) => unit_switch(old(unit)@, key@, v@) == Some(
                Err::<UnitView, Seq<char>>(reason@),
            ),
        },
{
    if same(key, "DefaultDependencies") {
        match parse_bool(v) {
            Some(b) => {
                unit.default_dependencies = b;
            },
            None => {
                return Err("expected bool".to_owned());
            },
        }
    } else if same(key, "StopWhenUnneeded") {
        match parse_bool(v) {
            Some(b) => {
                unit.stop_when_unneeded = b;
            },
            None => {
                return Err("expected bool".to_owned());
            },
        }
    } else if same(key, "RefuseManualStart") {
        match parse_bool(v) {
            Some(b) => {
                unit.refuse_manual_start = b;
            },
            None => {
                return Err("expected bool".to_owned());
            },
        }
    } else if same(key, "RefuseManualStop") {
        match parse_bool(v) {
            Some(b) => {
                unit.refuse_manual_stop = b;
            },
            None => {
                return Err("expected bool".to_owned());
            },
        }
    } else if same(key, "AllowIsolate") {
        match parse_bool(v) {
            Some(b) => {
                unit.allow_isolate = b;
            },
            None => {
                return Err("expected bool".to_owned());
            },
        }
    } else if same(key, "IgnoreOnIsolate") {
        match parse_bool(v) {
            Some(b) => {
                unit.ignore_on_isolate = b;
            },
            None => {
                return Err("expected bool".to_owned());
            },
        }
    } else {
        return Ok(false);
    }
    Ok(true)
}

/// `Condition*=` and `Assert*=`.
pub open spec fn unit_condition(m: UnitView, key: Seq<char>, v: Seq<char>) -> Option<
    Result<UnitView, Seq<char>>,
> {
    match text::without_prefix(key, "Condition"@) {
        Some(rest) => Some(
            match condition::condition_of(rest, v) {
                Ok(c) => Ok(
                    UnitView {
                        conditions: ConditionsView {
                            conditions: m.conditions.conditions.push(c),
                            ..m.conditions
                        },
                        ..m
                    },
                ),
                Err(reason) => Err(reason),
            },
        ),
        None => match text::without_prefix(key, "Assert"@) {
            Some(rest) => Some(
                match condition::condition_of(rest, v) {
                    Ok(c) => Ok(
                        UnitView {
                            conditions: ConditionsView {
                                asserts: m.conditions.asserts.push(c),
                                ..m.conditions
                            },
                            ..m
                        },
                    ),
                    Err(reason) => Err(reason),
                },
            ),
            None => None,
        },
    }
}

/// What a directive of `[Unit]` does; `None` where it is not known.
pub open spec fn unit_directive(m: UnitView, key: Seq<char>, v: Seq<char>) -> Option<
    Result<UnitView, Seq<char>>,
> {
    match deps_directive(m.deps, key, v) {
        Some(d) => Some(Ok(UnitView { deps: d, ..m })),
        None => if unit_text(m, key, v) is Some {
            unit_text(m, key, v)
        } else if unit_switch(m, key, v) is Some {
            unit_switch(m, key, v)
        } else {
            unit_condition(m, key, v)
        },
    }
}

/// Adds a condition or an assertion.
fn add_condition(unit: &mut Unit, key: &str, v: &str) -> (r: Result<bool, String>)
    ensures
        match r {
            Ok(true) => unit_condition(old(unit)@, key@, v@) == Some(
                Ok::<UnitView, Seq<char>>(final(unit)@),
            ),
            Ok(false) => unit_condition(old(unit)@, key@, v@) is None && final(unit)@ == old(
                unit,
            )@,
            Err(reason) => unit_condition(old(unit)@, key@, v@) == Some(
                Err::<UnitView, Seq<char>>(reason@),
            ),
        },
{
    let chars = chars_of(key);
    if let Some(rest) = strip_prefix(chars.as_slice(), "Condition") {
        return match Condition::parse(string_of(rest).as_str(), v) {
            Ok(c) => {
                let ghost before = unit.conditions.conditions@;
                unit.conditions.conditions.push(c);
                proof {
                    assert(condition::conditions_view(unit.conditions.conditions@)
                        =~= condition::conditions_view(before).push(c@));
                }
                Ok(true)
            },
            Err(reason) => Err(reason),
        };
    }
    if let Some(rest) = strip_prefix(chars.as_slice(), "Assert") {
        return match Condition::parse(string_of(rest).as_str(), v) {
            Ok(c) => {
                let ghost before = unit.conditions.asserts@;
                unit.conditions.asserts.push(c);
                proof {
                    assert(condition::conditions_view(unit.conditions.asserts@)
                        =~= condition::conditions_view(before).push(c@));
                }
                Ok(true)
            },
            Err(reason) => Err(reason),
        };
    }
    Ok(false)
}

/// Applies a directive of `[Unit]`; false where it is not known.
fn set_unit_directive(unit: &mut Unit, key: &str, v: &str) -> (r: Result<bool, String>)
    ensures
        match r {
            Ok(true) => unit_directive(old(unit)@, key@, v@) == Some(
                Ok::<UnitView, Seq<char>>(final(unit)@),
            ),
            Ok(false) => unit_directive(old(unit)@, key@, v@) is None && final(unit)@ == old(
                unit,
            )@,
            Err(reason) => unit_directive(old(unit)@, key@, v@) == Some(
                Err::<UnitView, Seq<char>>(reason@),
            ),
        },
{
    if add_dependency(&mut unit.deps, key, v) {
        return Ok(true);
    }
    match set_unit_text(unit, key, v) {
        Ok(true) => {
            return Ok(true);
        },
        Ok(false) => {},
        Err(reason) => {
            return Err(reason);
        },
    }
    match set_unit_switch(unit, key, v) {
        Ok(true) => {
            return Ok(true);
        },
        Ok(false) => {},
        Err(reason) => {
            return Err(reason);
        },
    }
    add_condition(unit, key, v)
}

/// Directives that are kept but need a Linux kernel to have an effect.
pub open spec fn unit_linux_key(key: Seq<char>) -> bool {
    key == "JoinsNamespaceOf"@
}

/// What one entry of `[Unit]` adds to the unit and to the warnings.
pub open spec fn unit_step(
    path: Seq<char>,
    m: UnitView,
    ws: Seq<ParseWarningView>,
    e: EntryView,
) -> Result<(UnitView, Seq<ParseWarningView>), ParseErrorView> {
    match unit_directive(m, e.key, e.value) {
        Some(Ok(n)) => Ok(
            (
                n,
                if unit_linux_key(e.key) {
                    ws.push(error::linux_only_warning(Some(path), e.line, "Unit"@, e.key))
                } else {
                    ws
                },
            ),
        ),
        Some(Err(reason)) => Err(values::bad_directive(path, "Unit"@, e, reason)),
        None => Ok((m, ws.push(error::unknown_warning(Some(path), e.line, "Unit"@, e.key)))),
    }
}

fn apply_unit_section(
    path: &str,
    unit: &mut Unit,
    e: &Entry,
    warnings: &mut Vec<ParseWarning>,
) -> (r: Result<(), ParseError>)
    ensures
        match r {
            Ok(()) => unit_step(path@, old(unit)@, values::warnings_view(old(warnings)@), e@)
                == Ok::<(UnitView, Seq<ParseWarningView>), ParseErrorView>(
                (final(unit)@, values::warnings_view(final(warnings)@)),
            ),
            Err(x) => unit_step(path@, old(unit)@, values::warnings_view(old(warnings)@), e@)
                == Err::<(UnitView, Seq<ParseWarningView>), ParseErrorView>(x@),
        },
{
    let key = e.key.as_str();
    let ghost before = warnings@;
    match set_unit_directive(unit, key, e.value.as_str()) {
        Ok(true) => {
            if same(key, "JoinsNamespaceOf") {
                let w = ParseWarning::linux_only(Some(path.to_owned()), e.line, "Unit", key);
                warnings.push(w);
                proof {
                    values::lemma_warnings_push(before, w);
                }
            }
            Ok(())
        },
        Ok(false) => {
            let w = ParseWarning::unknown(Some(path.to_owned()), e.line, "Unit", key);
            warnings.push(w);
            proof {
                values::lemma_warnings_push(before, w);
            }
            Ok(())
        },
        Err(reason) => Err(bad(path, "Unit", e, reason.as_str())),
    }
}

// ---------------------------------------------------------------------
// [Install]
// ---------------------------------------------------------------------

/// What a directive of `[Install]` does; `None` where it is not known.
pub open spec fn install_directive(m: InstallView, key: Seq<char>, v: Seq<char>) -> Option<InstallView> {
    let names = values::names_among(text::items(v, true));
    if key == "WantedBy"@ {
        Some(InstallView { wanted_by: name_set::extended(m.wanted_by, names), ..m })
    } else if key == "RequiredBy"@ {
        Some(InstallView { required_by: name_set::extended(m.required_by, names), ..m })
    } else if key == "UpheldBy"@ {
        Some(InstallView { upheld_by: name_set::extended(m.upheld_by, names), ..m })
    } else if key == "Also"@ {
        Some(InstallView { also: name_set::extended(m.also, names), ..m })
    } else if key == "Alias"@ {
        Some(InstallView { alias: name_set::extended(m.alias, names), ..m })
    } else if key == "DefaultInstance"@ {
        Some(InstallView { default_instance: Some(v), ..m })
    } else {
        None
    }
}

/// Applies a directive of `[Install]`; false where it is not known.
fn add_install(i: &mut Install, key: &str, v: &str) -> (r: bool)
    ensures
        match install_directive(old(i)@, key@, v@) {
            Some(n) => r && final(i)@ == n,
            None => !r && final(i)@ == old(i)@,
        },
{
    if same(key, "WantedBy") {
        i.wanted_by.extend(parse_units_list(v));
    } else if same(key, "RequiredBy") {
        i.required_by.extend(parse_units_list(v));
    } else if same(key, "UpheldBy") {
        i.upheld_by.extend(parse_units_list(v));
    } else if same(key, "Also") {
        i.also.extend(parse_units_list(v));
    } else if same(key, "Alias") {
        i.alias.extend(parse_units_list(v));
    } else if same(key, "DefaultInstance") {
        i.default_instance = Some(v.to_owned());
    } else {
        return false;
    }
    true
}

/// What one entry of `[Install]` adds to the unit and to the warnings.
pub open spec fn install_step(
    path: Seq<char>,
    m: UnitView,
    ws: Seq<ParseWarningView>,
    e: EntryView,
) -> (UnitView, Seq<ParseWarningView>) {
    match install_directive(m.install, e.key, e.value) {
        Some(n) => (UnitView { install: n, ..m }, ws),
        None => (m, ws.push(error::unknown_warning(Some(path), e.line, "Install"@, e.key))),
    }
}

fn apply_install_section(
    path: &str,
    unit: &mut Unit,
    e: &Entry,
    warnings: &mut Vec<ParseWarning>,
)
    ensures
        install_step(path@, old(unit)@, values::warnings_view(old(warnings)@), e@) == (
            final(unit)@,
            values::warnings_view(final(warnings)@),
        ),
{
    let key = e.key.as_str();
    let ghost before = warnings@;
    if !add_install(&mut unit.install, key, e.value.as_str()) {
        let w = ParseWarning::unknown(Some(path.to_owned()), e.line, "Install", key);
        warnings.push(w);
        proof {
            values::lemma_warnings_push(before, w);
        }
    }
}

// ---------------------------------------------------------------------
// The whole unit
// ---------------------------------------------------------------------

/// A unit and its warnings, or the error that stopped the parser.
pub type UnitOutcome = Result<(UnitView, Seq<ParseWarningView>), ParseErrorView>;

/// What entries of `[Unit]` add, up to the first that is wrong.
pub open spec fn unit_entries(
    path: Seq<char>,
    es: Seq<EntryView>,
    m: UnitView,
    ws: Seq<ParseWarningView>,
) -> UnitOutcome
    decreases es.len(),
{
    if es.len() == 0 {
        Ok((m, ws))
    } else {
        match unit_step(path, m, ws, es[0]) {
            Err(e) => Err(e),
            Ok((n, vs)) => unit_entries(path, es.skip(1), n, vs),
        }
    }
}

/// What entries of `[Install]` add.
pub open spec fn install_entries(
    path: Seq<char>,
    es: Seq<EntryView>,
    m: UnitView,
    ws: Seq<ParseWarningView>,
) -> (UnitView, Seq<ParseWarningView>)
    decreases es.len(),
{
    if es.len() == 0 {
        (m, ws)
    } else {
        let (n, vs) = install_step(path, m, ws, es[0]);
        install_entries(path, es.skip(1), n, vs)
    }
}

/// What the section of the unit's own type adds.
pub open spec fn type_section(
    path: Seq<char>,
    sections: Seq<SectionView>,
    m: UnitView,
    ws: Seq<ParseWarningView>,
) -> UnitOutcome {
    match m.name.kind {
        UnitKind::Service => match parse_service::service_entries(
            path,
            ini::entries_or_none(sections, "Service"@),
            parse_service::fresh_service(),
            ws,
        ) {
            Ok((s, vs)) => Ok((UnitView { kind: TypeView::Service(s), ..m }, vs)),
            Err(e) => Err(e),
        },
        UnitKind::Socket => match parse_socket::socket_entries(
            path,
            ini::entries_or_none(sections, "Socket"@),
            parse_socket::fresh_socket(),
            ws,
        ) {
            Ok((s, vs)) => Ok((UnitView { kind: TypeView::Socket(s), ..m }, vs)),
            Err(e) => Err(e),
        },
        UnitKind::Timer => match parse_timer::timer_entries(
            path,
            ini::entries_or_none(sections, "Timer"@),
            parse_timer::fresh_timer(),
            ws,
        ) {
            Ok((t, vs)) => Ok((UnitView { kind: TypeView::Timer(t), ..m }, vs)),
            Err(e) => Err(e),
        },
        UnitKind::Path => match parse_path::path_entries(
            path,
            ini::entries_or_none(sections, "Path"@),
            parse_path::fresh_path(),
            ws,
        ) {
            Ok((p, vs)) => Ok((UnitView { kind: TypeView::Path(p), ..m }, vs)),
            Err(e) => Err(e),
        },
        _ => Ok((m, ws)),
    }
}

/// The unit of these sections, which a text holds.
pub open spec fn unit_of_sections(
    name: NameView,
    path: Seq<char>,
    source: Seq<char>,
    sections: Seq<SectionView>,
) -> UnitOutcome {
    match unit_entries(
        path,
        ini::entries_or_none(sections, "Unit"@),
        UnitView { raw: sections, source, ..empty_unit(name) },
        seq![],
    ) {
        Err(e) => Err(e),
        Ok((m, ws)) => {
            let (n, vs) = install_entries(
                path,
                ini::entries_or_none(sections, "Install"@),
                m,
                ws,
            );
            type_section(path, sections, n, vs)
        },
    }
}

/// The path that messages name where the source has none.
pub open spec fn shown_path(path: Option<Seq<char>>) -> Seq<char> {
    match path {
        Some(p) => p,
        None => "<memory>"@,
    }
}

/// The unit of a source text.
pub open spec fn parse_unit(
    name: NameView,
    source: Seq<char>,
    path: Option<Seq<char>>,
) -> UnitOutcome {
    match ini::parse_ini(shown_path(path), source) {
        Err(e) => Err(e),
        Ok(sections) => unit_of_sections(name, shown_path(path), source, sections),
    }
}

/// The view of a parsed unit.
pub open spec fn unit_result(r: Result<ParsedUnit, ParseError>) -> UnitOutcome {
    match r {
        Ok(p) => Ok((p.unit@, values::warnings_view(p.warnings@))),
        Err(e) => Err(e@),
    }
}

/// The view of an optional path.
pub open spec fn opt_str(p: Option<&str>) -> Option<Seq<char>> {
    match p {
        Some(s) => Some(s@),
        None => None,
    }
}

pub(crate) proof fn lemma_entries_keep_name(
    path: Seq<char>,
    es: Seq<EntryView>,
    m: UnitView,
    ws: Seq<ParseWarningView>,
)
    ensures
        unit_entries(path, es, m, ws) is Ok ==> {
            let n = unit_entries(path, es, m, ws)->Ok_0.0;
            n.name == m.name && n.raw == m.raw && n.source == m.source && n.fragment_paths
                == m.fragment_paths
        },
    decreases es.len(),
{
    if es.len() > 0 {
        match unit_step(path, m, ws, es[0]) {
            Ok((n, vs)) => {
                lemma_entries_keep_name(path, es.skip(1), n, vs);
            },
            Err(_) => {},
        }
    }
}

pub(crate) proof fn lemma_install_keeps_name(
    path: Seq<char>,
    es: Seq<EntryView>,
    m: UnitView,
    ws: Seq<ParseWarningView>,
)
    ensures
        ({
            let n = install_entries(path, es, m, ws).0;
            n.name == m.name && n.raw == m.raw && n.source == m.source && n.fragment_paths
                == m.fragment_paths
        }),
    decreases es.len(),
{
    if es.len() > 0 {
        let (n, vs) = install_step(path, m, ws, es[0]);
        lemma_install_keeps_name(path, es.skip(1), n, vs);
    }
}

/// A parsed unit has the name it was asked for, and keeps its source and the
/// sections of it.
pub proof fn parsed_unit_keeps_source(
    name: NameView,
    path: Seq<char>,
    source: Seq<char>,
    sections: Seq<SectionView>,
)
    ensures
        unit_of_sections(name, path, source, sections) is Ok ==> {
            let u = unit_of_sections(name, path, source, sections)->Ok_0.0;
            u.name == name && u.raw == sections && u.source == source && u.fragment_paths
                == Seq::<Seq<char>>::empty()
        },
{
    let start = UnitView { raw: sections, source, ..empty_unit(name) };
    let es = ini::entries_or_none(sections, "Unit"@);
    lemma_entries_keep_name(path, es, start, seq![]);
    match unit_entries(path, es, start, seq![]) {
        Ok((m, ws)) => {
            lemma_install_keeps_name(path, ini::entries_or_none(sections, "Install"@), m, ws);
        },
        Err(_) => {},
    }
}

/// Applies the entries of `[Unit]`.
fn apply_unit_entries(
    path: &str,
    unit: &mut Unit,
    entries: &Vec<Entry>,
    warnings: &mut Vec<ParseWarning>,
) -> (r: Result<(), ParseError>)
    ensures
        match r {
            Ok(()) => unit_entries(
                path@,
                ini::entries_view(entries@),
                old(unit)@,
                values::warnings_view(old(warnings)@),
            ) == Ok::<(UnitView, Seq<ParseWarningView>), ParseErrorView>(
                (final(unit)@, values::warnings_view(final(warnings)@)),
            ),
            Err(x) => unit_entries(
                path@,
                ini::entries_view(entries@),
                old(unit)@,
                values::warnings_view(old(warnings)@),
            ) == Err::<(UnitView, Seq<ParseWarningView>), ParseErrorView>(x@),
        },
{
    let mut i: usize = 0;
    let ghost all = ini::entries_view(entries@);
    proof {
        assert(all.skip(0) =~= all);
    }
    while i < entries.len()
        invariant
            i <= entries.len(),
            all == ini::entries_view(entries@),
            unit_entries(path@, all, old(unit)@, values::warnings_view(old(warnings)@))
                == unit_entries(
                path@,
                all.skip(i as int),
                unit@,
                values::warnings_view(warnings@),
            ),
        decreases entries.len() - i,
    {
        proof {
            assert(all.skip(i as int)[0] == entries@[i as int]@);
            assert(all.skip(i as int).skip(1) =~= all.skip(i + 1));
        }
        if let Err(x) = apply_unit_section(path, unit, &entries[i], warnings) {
            return Err(x);
        }
        i = i + 1;
    }
    Ok(())
}

/// Applies the entries of `[Install]`.
fn apply_install_entries(
    path: &str,
    unit: &mut Unit,
    entries: &Vec<Entry>,
    warnings: &mut Vec<ParseWarning>,
)
    ensures
        install_entries(
            path@,
            ini::entries_view(entries@),
            old(unit)@,
            values::warnings_view(old(warnings)@),
        ) == (final(unit)@, values::warnings_view(final(warnings)@)),
{
    let mut i: usize = 0;
    let ghost all = ini::entries_view(entries@);
    proof {
        assert(all.skip(0) =~= all);
    }
    while i < entries.len()
        invariant
            i <= entries.len(),
            all == ini::entries_view(entries@),
            install_entries(path@, all, old(unit)@, values::warnings_view(old(warnings)@))
                == install_entries(
                path@,
                all.skip(i as int),
                unit@,
                values::warnings_view(warnings@),
            ),
        decreases entries.len() - i,
    {
        proof {
            assert(all.skip(i as int)[0] == entries@[i as int]@);
            assert(all.skip(i as int).skip(1) =~= all.skip(i + 1));
        }
        apply_install_section(path, unit, &entries[i], warnings);
        i = i + 1;
    }
}

/// The typed data of the unit's own section; `None` for kinds without one.
fn parse_type_section(
    kind: UnitKind,
    ini: &Ini,
    path: &str,
    warnings: &mut Vec<ParseWarning>,
) -> (r: Result<Option<UnitTypeData>, ParseError>)
    ensures
        forall|m: UnitView|
            m.name.kind == kind ==> (#[trigger] type_section(
                path@,
                ini@,
                m,
                values::warnings_view(old(warnings)@),
            ) == match r {
                Ok(Some(data)) => Ok::<(UnitView, Seq<ParseWarningView>), ParseErrorView>(
                    (UnitView { kind: data@, ..m }, values::warnings_view(final(warnings)@)),
                ),
                Ok(None) => Ok((m, values::warnings_view(final(warnings)@))),
                Err(x) => Err(x@),
            }),
{
    match kind {
        UnitKind::Service => match parse_service(ini, path, warnings) {
            Ok(s) => Ok(Some(UnitTypeData::Service(s))),
            Err(x) => Err(x),
        },
        UnitKind::Socket => match parse_socket(ini, path, warnings) {
            Ok(s) => Ok(Some(UnitTypeData::Socket(s))),
            Err(x) => Err(x),
        },
        UnitKind::Timer => match parse_timer(ini, path, warnings) {
            Ok(t) => Ok(Some(UnitTypeData::Timer(t))),
            Err(x) => Err(x),
        },
        UnitKind::Path => match parse_path(ini, path, warnings) {
            Ok(p) => Ok(Some(UnitTypeData::Path(p))),
            Err(x) => Err(x),
        },
        _ => Ok(None),
    }
}

/// The unit of an INI, which a text holds.
pub fn unit_from_ini(name: UnitName, path: &str, source: &str, sections: Ini) -> (r: Result<
    ParsedUnit,
    ParseError,
>)
    ensures
        unit_result(r) == unit_of_sections(name@, path@, source@, sections@),
{
    let mut warnings: Vec<ParseWarning> = Vec::new();
    proof {
        assert(values::warnings_view(warnings@) =~= seq![]);
    }
    let kind = name.kind;
    let ghost n = name@;
    let mut unit = Unit::empty(name);
    let ghost start = UnitView { raw: sections@, source: source@, ..empty_unit(n) };
    let ghost body = sections@;
    let none: Vec<Entry> = Vec::new();
    proof {
        assert(ini::entries_view(none@) =~= seq![]);
    }
    let unit_list = match sections.get("Unit") {
        Some(es) => copy_entries(es),
        None => copy_entries(&none),
    };
    let install_list = match sections.get("Install") {
        Some(es) => copy_entries(es),
        None => copy_entries(&none),
    };
    unit.raw = sections;
    unit.source = source.to_owned();
    if let Err(x) = apply_unit_entries(path, &mut unit, &unit_list, &mut warnings) {
        return Err(x);
    }
    proof {
        lemma_entries_keep_name(path@, ini::entries_view(unit_list@), start, seq![]);
    }
    let ghost mid = unit@;
    let ghost mid_ws = values::warnings_view(warnings@);
    apply_install_entries(path, &mut unit, &install_list, &mut warnings);
    proof {
        lemma_install_keeps_name(path@, ini::entries_view(install_list@), mid, mid_ws);
    }
    match parse_type_section(kind, &unit.raw, path, &mut warnings) {
        Err(x) => Err(x),
        Ok(None) => Ok(ParsedUnit { unit, warnings }),
        Ok(Some(data)) => {
            unit.kind = data;
            Ok(ParsedUnit { unit, warnings })
        },
    }
}

/// The `cat` output of a unit is the text that it was parsed from, comments and
/// layout and all.
pub proof fn cat_reproduces_the_file(name: NameView, source: Seq<char>, path: Option<Seq<char>>)
    ensures
        parse_unit(name, source, path) is Ok ==> parse_unit(name, source, path)->Ok_0.0.source
            == source,
{
    if let Ok(sections) = ini::parse_ini(shown_path(path), source) {
        parsed_unit_keeps_source(name, shown_path(path), source, sections);
    }
}

/// Parse from in-memory source.
pub fn parse_unit_str(name: UnitName, source: &str, path_for_errors: Option<&str>) -> (r: Result<
    ParsedUnit,
    ParseError,
>)
    ensures
        unit_result(r) == parse_unit(name@, source@, opt_str(path_for_errors)),
{
    let path: &str = match path_for_errors {
        Some(p) => p,
        None => "<memory>",
    };
    match parse(path, source) {
        Err(x) => Err(x),
        Ok(sections) => unit_from_ini(name, path, source, sections),
    }
}

/// The unit of a fragment file: its name comes from the path, which is also
/// its first fragment path.
pub open spec fn parse_fragment(path: Seq<char>, source: Seq<char>) -> UnitOutcome {
    match name::parse_path_name(path) {
        Err(e) => Err(e),
        Ok(n) => match parse_unit(n, source, Some(path)) {
            Err(e) => Err(e),
            Ok((u, ws)) => Ok((UnitView { fragment_paths: u.fragment_paths.push(path), ..u }, ws)),
        },
    }
}

/// Parse a fragment file whose contents have been read.
pub fn parse_unit_file(path: &str, source: &str) -> (r: Result<ParsedUnit, ParseError>)
    ensures
        unit_result(r) == parse_fragment(path@, source@),
{
    match UnitName::from_path(path) {
        Err(x) => Err(x),
        Ok(n) => match parse_unit_str(n, source, Some(path)) {
            Err(x) => Err(x),
            Ok(mut p) => {
                let ghost before = p.unit.fragment_paths@;
                p.unit.fragment_paths.push(path.to_owned());
                proof {
                    assert(text::texts(p.unit.fragment_paths@) =~= text::texts(before).push(path@));
                }
                Ok(p)
            },
        },
    }
}

} // verus!
