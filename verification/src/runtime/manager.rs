//! Manager facade: the registry of loaded units with their runtime state.
//!
//! Every `start`/`stop`/`enable`/`reload` flows through here. The manager
//! decides what changes and which events its subscribers get; its caller reads
//! the file system, runs processes and hands the events out.

use crate::deps::job::{JobId, JobOutcome, JobType};
use crate::runtime::install;
use crate::runtime::install::{EnableChanges, EnableView};
use crate::runtime::service;
use crate::runtime::service::{needs_supervisor, RunView, RunnerView, ServiceRunner};
use crate::runtime::state;
use crate::runtime::state::{ActiveState, LoadState, StatusView, UnitStatus};
use crate::text;
use crate::unit::install::{Install, InstallView};
use crate::unit::load::{LoadedUnit, LoadedView};
use crate::unit::name;
use crate::unit::name::{NameView, UnitKind, UnitName};
use crate::unit::name_map;
use crate::unit::name_map::{copy_names, NameMap, NameTable};
use crate::unit::name_set;
use crate::unit::service::ServiceType;
use crate::unit::spec::{TypeView, UnitTypeData};
use vstd::prelude::*;

verus! {

/// One event for the manager's subscribers.
#[derive(Debug, PartialEq, Eq)]
pub enum UnitEvent {
    /// Unit was loaded.
    UnitNew(UnitName),
    /// Unit was unloaded.
    UnitRemoved(UnitName),
    /// Job was queued.
    JobNew {
        /// Job id.
        id: JobId,
        /// Target unit.
        unit: UnitName,
        /// Job kind.
        kind: JobType,
    },
    /// Job completed.
    JobRemoved {
        /// Job id.
        id: JobId,
        /// Target unit.
        unit: UnitName,
        /// Final outcome.
        outcome: JobOutcome,
    },
    /// Unit's `ActiveState`/`SubState` changed.
    StateChanged {
        /// Affected unit.
        unit: UnitName,
        /// New ActiveState.
        active: ActiveState,
        /// New SubState.
        sub: String,
    },
}

/// A [`UnitEvent`] by its characters.
pub enum EventView {
    UnitNew(NameView),
    UnitRemoved(NameView),
    JobNew { id: JobId, unit: NameView, kind: JobType },
    JobRemoved { id: JobId, unit: NameView, outcome: JobOutcome },
    StateChanged { unit: NameView, active: ActiveState, sub: Seq<char> },
}

impl View for UnitEvent {
    type V = EventView;

    open spec fn view(&self) -> EventView {
        match *self {
            UnitEvent::UnitNew(n) => EventView::UnitNew(n@),
            UnitEvent::UnitRemoved(n) => EventView::UnitRemoved(n@),
            UnitEvent::JobNew { id, unit, kind } => EventView::JobNew { id, unit: unit@, kind },
            UnitEvent::JobRemoved { id, unit, outcome } => EventView::JobRemoved {
                id,
                unit: unit@,
                outcome,
            },
            UnitEvent::StateChanged { unit, active, sub } => EventView::StateChanged {
                unit: unit@,
                active,
                sub: sub@,
            },
        }
    }
}

/// The views of a list of events.
pub open spec fn events_view(v: Seq<UnitEvent>) -> Seq<EventView> {
    v.map_values(|e: UnitEvent| e@)
}

fn push_event(out: &mut Vec<UnitEvent>, e: UnitEvent)
    ensures
        events_view(final(out)@) == events_view(old(out)@).push(e@),
{
    out.push(e);
    proof {
        assert(events_view(out@) =~= events_view(old(out)@).push(e@));
    }
}

/// In-memory unit registry plus runtime state.
pub struct Manager {
    /// All loaded units, keyed by canonical name.
    pub units: NameMap<LoadedUnit>,
    /// Per-unit runtime state.
    pub status: NameMap<UnitStatus>,
    /// Per-service runtime supervisors.
    pub services: NameMap<ServiceRunner>,
    /// Monotonic job-id counter.
    pub next_job_id: u32,
}

/// A [`Manager`] by its characters.
pub struct ManagerView {
    pub units: Seq<(NameView, LoadedView)>,
    pub status: Seq<(NameView, StatusView)>,
    pub services: Seq<(NameView, RunnerView)>,
    pub next_job_id: u32,
}

impl View for Manager {
    type V = ManagerView;

    open spec fn view(&self) -> ManagerView {
        ManagerView {
            units: self.units.entries(),
            status: self.status.entries(),
            services: self.services.entries(),
            next_job_id: self.next_job_id,
        }
    }
}

/// The manager without units.
pub open spec fn empty_manager() -> ManagerView {
    ManagerView { units: seq![], status: seq![], services: seq![], next_job_id: 1 }
}

impl Default for Manager {
    fn default() -> (r: Self)
        ensures
            r@ == empty_manager(),
    {
        Manager::new()
    }
}

// ---------------------------------------------------------------------
// States
// ---------------------------------------------------------------------

/// The manager with another state for a unit; nothing changes where the unit
/// has no status.
pub open spec fn marked(
    m: ManagerView,
    n: NameView,
    active: ActiveState,
    sub: Seq<char>,
) -> ManagerView {
    match name_map::found(m.status, n) {
        Some(st) => ManagerView {
            status: name_map::with_entry(m.status, n, StatusView { active, sub, ..st }),
            ..m
        },
        None => m,
    }
}

/// The event that says so.
pub open spec fn state_event(n: NameView, active: ActiveState, sub: Seq<char>) -> EventView {
    EventView::StateChanged { unit: n, active, sub }
}

/// The status of a unit that was just loaded.
pub open spec fn fresh_status(n: NameView, description: Seq<char>) -> StatusView {
    StatusView {
        unit: Some(n),
        load: LoadState::Loaded,
        active: ActiveState::Inactive,
        sub: "dead"@,
        description,
    }
}

/// The manager with one more unit, inactive.
pub open spec fn with_loaded(m: ManagerView, n: NameView, lu: LoadedView) -> ManagerView {
    ManagerView {
        units: name_map::with_entry(m.units, n, lu),
        status: name_map::with_entry(m.status, n, fresh_status(n, lu.unit.description)),
        services: match lu.unit.kind {
            TypeView::Service(svc) => name_map::with_entry(
                m.services,
                n,
                RunnerView { unit: n, svc, run: service::idle() },
            ),
            _ => m.services,
        },
        ..m
    }
}

/// The live status of a unit; not found where it has none.
pub open spec fn status_of(m: ManagerView, n: NameView) -> StatusView {
    match name_map::found(m.status, n) {
        Some(st) => st,
        None => StatusView { unit: Some(n), load: LoadState::NotFound, ..state::no_status() },
    }
}

impl Manager {
    /// New empty manager.
    pub fn new() -> (r: Self)
        ensures
            r@ == empty_manager(),
    {
        let r = Manager {
            units: NameMap::new(),
            status: NameMap::new(),
            services: NameMap::new(),
            next_job_id: 1,
        };
        proof {
            assert(r@.units =~= seq![]);
            assert(r@.status =~= seq![]);
            assert(r@.services =~= seq![]);
        }
        r
    }

    /// Update a unit's active/sub state. No-op on the state if the unit has no
    /// status entry; subscribers are told either way.
    pub fn mark_state(&mut self, n: &UnitName, active: ActiveState, sub: &str) -> (r: UnitEvent)
        ensures
            final(self)@ == marked(old(self)@, n@, active, sub@),
            r@ == state_event(n@, active, sub@),
    {
        if let Some(st) = self.status.lookup(n) {
            let mut st = st.clone();
            st.active = active;
            st.sub = sub.to_owned();
            self.status.put(n.clone(), st);
        }
        UnitEvent::StateChanged { unit: n.clone(), active, sub: sub.to_owned() }
    }

    /// Insert a freshly loaded unit. Sub-state remains "dead" until activated.
    pub fn insert_loaded(&mut self, n: UnitName, lu: LoadedUnit) -> (r: UnitEvent)
        ensures
            final(self)@ == with_loaded(old(self)@, n@, lu@),
            r@ == EventView::UnitNew(n@),
    {
        let st = UnitStatus {
            unit: Some(n.clone()),
            load: LoadState::Loaded,
            active: ActiveState::Inactive,
            sub: "dead".to_owned(),
            description: lu.unit.description.clone(),
        };
        if let UnitTypeData::Service(svc) = &lu.unit.kind {
            self.services.put(n.clone(), ServiceRunner::new(n.clone(), svc.clone()));
        }
        self.units.put(n.clone(), lu);
        self.status.put(n.clone(), st);
        UnitEvent::UnitNew(n)
    }

    /// Manually inject a parsed unit.
    pub fn add_parsed(&mut self, n: UnitName, lu: LoadedUnit) -> (r: UnitEvent)
        ensures
            final(self)@ == with_loaded(old(self)@, n@, lu@),
            r@ == EventView::UnitNew(n@),
    {
        self.insert_loaded(n, lu)
    }

    /// Look up the live status of a unit.
    pub fn unit_status(&self, n: &UnitName) -> (r: UnitStatus)
        ensures
            r@ == status_of(self@, n@),
    {
        match self.status.lookup(n) {
            Some(st) => st.clone(),
            None => {
                let mut st = UnitStatus::default();
                st.unit = Some(n.clone());
                st.load = LoadState::NotFound;
                st
            },
        }
    }

    /// The units that are active.
    pub fn active_units(&self) -> (r: NameTable)
        ensures
            r@.no_duplicates(),
            forall|n: NameView| #[trigger]
                r@.contains(n) <==> status_of(self@, n).active is Active,
    {
        let names = self.status.names();
        let ghost all = name_set::names_view(names@);
        let mut out = NameTable::new();
        let mut i: usize = 0;
        while i < names.len()
            invariant
                i <= names.len(),
                all == name_set::names_view(names@),
                out@.no_duplicates(),
                forall|n: NameView| #[trigger]
                    out@.contains(n) <==> all.take(i as int).contains(n) && status_of(
                        self@,
                        n,
                    ).active is Active,
            decreases names.len() - i,
        {
            let ghost before = out@;
            let name = &names[i];
            if self.unit_status(name).active == ActiveState::Active {
                out.insert(name.clone());
            }
            proof {
                assert(all.take(i + 1) =~= all.take(i as int).push(name@));
                assert forall|n: NameView| #[trigger]
                    out@.contains(n) <==> all.take(i + 1).contains(n) && status_of(
                        self@,
                        n,
                    ).active is Active by {
                    vstd::seq_lib::lemma_seq_contains_after_push(all.take(i as int), name@, n);
                    vstd::seq_lib::lemma_seq_contains_after_push(before, name@, n);
                }
            }
            i = i + 1;
        }
        proof {
            assert(all.take(all.len() as int) =~= all);
            self.status.lemma_names();
        }
        out
    }

    /// A timer's unit no longer runs: the timer waits again. One that was
    /// stopped meanwhile stays as it is.
    pub fn flip_to_waiting(&mut self, timer: &UnitName) -> (r: Option<UnitEvent>)
        ensures
            final(self)@ == if status_of(old(self)@, timer@).active is Active {
                marked(old(self)@, timer@, ActiveState::Active, "waiting"@)
            } else {
                old(self)@
            },
            match r {
                Some(e) => status_of(old(self)@, timer@).active is Active && e@ == state_event(
                    timer@,
                    ActiveState::Active,
                    "waiting"@,
                ),
                None => !(status_of(old(self)@, timer@).active is Active),
            },
    {
        if self.unit_status(timer).active == ActiveState::Active {
            Some(self.mark_state(timer, ActiveState::Active, "waiting"))
        } else {
            None
        }
    }

    /// Snapshot of every loaded unit's status.
    pub fn list_units(&self) -> (r: Vec<UnitStatus>)
        ensures
            state::statuses_view(r@) == self@.status.map_values(|e: (NameView, StatusView)| e.1),
    {
        let mut out: Vec<UnitStatus> = Vec::new();
        let ghost all = self@.status.map_values(|e: (NameView, StatusView)| e.1);
        let mut i: usize = 0;
        proof {
            assert(state::statuses_view(out@) =~= all.take(0));
        }
        while i < self.status.len()
            invariant
                i <= self.status.keys().len(),
                all == self@.status.map_values(|e: (NameView, StatusView)| e.1),
                state::statuses_view(out@) == all.take(i as int),
            decreases self.status.keys().len() - i,
        {
            let ghost before = out@;
            out.push(self.status.value_at(i).clone());
            proof {
                assert(self@.status[i as int].1 == self.status.values()[i as int]@);
                assert(state::statuses_view(out@) =~= state::statuses_view(before).push(
                    all[i as int],
                ));
                assert(all.take(i + 1) =~= all.take(i as int).push(all[i as int]));
            }
            i = i + 1;
        }
        proof {
            assert(all.take(all.len() as int) =~= all);
        }
        out
    }
}

// ---------------------------------------------------------------------
// Reload
// ---------------------------------------------------------------------

/// The unit files among paths: those with a unit's name, the first of each
/// name.
pub open spec fn unit_files(ps: Seq<Seq<char>>) -> Seq<(NameView, Seq<char>)>
    decreases ps.len(),
{
    if ps.len() == 0 {
        seq![]
    } else {
        let before = unit_files(ps.drop_last());
        match name::parse_path_name(ps.last()) {
            Ok(n) => if name_map::names_of(before).contains(n) {
                before
            } else {
                before.push((n, ps.last()))
            },
            Err(_) => before,
        }
    }
}

/// Finds the unit files among the files of the search directories, given in
/// the order of the search path: the first of each name counts.
pub fn found_units(files: &Vec<String>) -> (r: NameMap<String>)
    ensures
        r.entries() == unit_files(text::texts(files@)),
{
    let ghost all = text::texts(files@);
    let mut out: NameMap<String> = NameMap::new();
    let mut i: usize = 0;
    proof {
        assert(out.entries() =~= unit_files(all.take(0)));
    }
    while i < files.len()
        invariant
            i <= files.len(),
            all == text::texts(files@),
            out.entries() == unit_files(all.take(i as int)),
        decreases files.len() - i,
    {
        proof {
            assert(all.take(i + 1).drop_last() =~= all.take(i as int));
            assert(all.take(i + 1).last() == files@[i as int]@);
            out.lemma_names();
        }
        if let Ok(n) = UnitName::from_path(files[i].as_str()) {
            if !out.contains(&n) {
                out.put(n, files[i].clone());
            }
        }
        i = i + 1;
    }
    proof {
        assert(all.take(all.len() as int) =~= all);
    }
    out
}

/// The names that are not among others, in order.
pub open spec fn missing(s: Seq<NameView>, kept: Seq<NameView>) -> Seq<NameView>
    decreases s.len(),
{
    if s.len() == 0 {
        seq![]
    } else if kept.contains(s.last()) {
        missing(s.drop_last(), kept)
    } else {
        missing(s.drop_last(), kept).push(s.last())
    }
}

/// The manager without a unit.
pub open spec fn without_unit(m: ManagerView, n: NameView) -> ManagerView {
    ManagerView {
        units: name_map::without_entry(m.units, n),
        status: name_map::without_entry(m.status, n),
        services: name_map::without_entry(m.services, n),
        ..m
    }
}

/// The manager without some units.
pub open spec fn without_units(m: ManagerView, ns: Seq<NameView>) -> ManagerView
    decreases ns.len(),
{
    if ns.len() == 0 {
        m
    } else {
        without_unit(without_units(m, ns.drop_last()), ns.last())
    }
}

/// The status of a unit that was loaded anew: it keeps its state.
pub open spec fn reloaded_status(
    old_status: Option<StatusView>,
    n: NameView,
    description: Seq<char>,
) -> StatusView {
    match old_status {
        Some(st) => StatusView { description, load: LoadState::Loaded, ..st },
        None => StatusView {
            unit: Some(n),
            load: LoadState::Loaded,
            description,
            ..state::no_status()
        },
    }
}

/// The run of a service that was loaded anew: it keeps its state and its main
/// process.
pub open spec fn reloaded_run(old_runner: Option<RunnerView>) -> RunView {
    match old_runner {
        Some(o) => RunView {
            state: o.run.state,
            sub: o.run.sub,
            main_pid: o.run.main_pid,
            ..service::idle()
        },
        None => service::idle(),
    }
}

/// The manager with a unit that was loaded anew. Its status moves to the end.
pub open spec fn with_reloaded(m: ManagerView, n: NameView, lu: LoadedView) -> ManagerView {
    ManagerView {
        units: name_map::with_entry(m.units, n, lu),
        status: name_map::with_entry(
            name_map::without_entry(m.status, n),
            n,
            reloaded_status(name_map::found(m.status, n), n, lu.unit.description),
        ),
        services: match lu.unit.kind {
            TypeView::Service(svc) => name_map::with_entry(
                m.services,
                n,
                RunnerView { unit: n, svc, run: reloaded_run(name_map::found(m.services, n)) },
            ),
            _ => m.services,
        },
        ..m
    }
}

/// The manager with some units that were loaded anew.
pub open spec fn with_all_reloaded(m: ManagerView, us: Seq<(NameView, LoadedView)>) -> ManagerView
    decreases us.len(),
{
    if us.len() == 0 {
        m
    } else {
        with_reloaded(with_all_reloaded(m, us.drop_last()), us.last().0, us.last().1)
    }
}

/// The views of a list of loaded units with their names.
pub open spec fn loaded_pairs(v: Seq<(UnitName, LoadedUnit)>) -> Seq<(NameView, LoadedView)> {
    v.map_values(|p: (UnitName, LoadedUnit)| (p.0@, p.1@))
}

/// The manager after a reload that found these units: the others are gone.
pub open spec fn reloaded(m: ManagerView, us: Seq<(NameView, LoadedView)>) -> ManagerView {
    with_all_reloaded(
        without_units(m, missing(name_map::names_of(m.units), name_map::names_of(us))),
        us,
    )
}

/// What subscribers are told of a reload.
pub open spec fn reload_events(m: ManagerView, us: Seq<(NameView, LoadedView)>) -> Seq<EventView> {
    missing(name_map::names_of(m.units), name_map::names_of(us)).map_values(
        |n: NameView| EventView::UnitRemoved(n),
    ) + us.map_values(|p: (NameView, LoadedView)| EventView::UnitNew(p.0))
}

fn missing_names(s: &Vec<UnitName>, kept: &NameTable) -> (r: Vec<UnitName>)
    ensures
        name_set::names_view(r@) == missing(name_set::names_view(s@), kept@),
{
    let ghost all = name_set::names_view(s@);
    let mut out: Vec<UnitName> = Vec::new();
    let mut i: usize = 0;
    proof {
        assert(name_set::names_view(out@) =~= missing(all.take(0), kept@));
    }
    while i < s.len()
        invariant
            i <= s.len(),
            all == name_set::names_view(s@),
            name_set::names_view(out@) == missing(all.take(i as int), kept@),
        decreases s.len() - i,
    {
        proof {
            assert(all.take(i + 1).drop_last() =~= all.take(i as int));
            assert(all.take(i + 1).last() == s@[i as int]@);
        }
        if !kept.contains(&s[i]) {
            let ghost before = out@;
            out.push(s[i].clone());
            proof {
                assert(name_set::names_view(out@) =~= name_set::names_view(before).push(
                    all[i as int],
                ));
            }
        }
        i = i + 1;
    }
    proof {
        assert(all.take(all.len() as int) =~= all);
    }
    out
}

/// A table has a name just where a list has that the table was made of.
proof fn lemma_table_of(s: Seq<NameView>, t: Seq<NameView>, n: NameView)
    requires
        t == s.fold_left(Seq::<NameView>::empty(), |a: Seq<NameView>, x: NameView|
            name_map::with_name(a, x)),
    ensures
        t.contains(n) == s.contains(n),
    decreases s.len(),
{
    let f = |a: Seq<NameView>, x: NameView| name_map::with_name(a, x);
    let none = Seq::<NameView>::empty();
    reveal_with_fuel(Seq::fold_left, 2);
    if s.len() > 0 {
        let before = s.drop_last().fold_left(none, f);
        lemma_table_of(s.drop_last(), before, n);
        assert(t == name_map::with_name(before, s.last()));
        if s.contains(n) {
            let k = choose|k: int| 0 <= k < s.len() && s[k] == n;
            if k < s.len() - 1 {
                assert(s.drop_last()[k] == n);
            }
        }
        if s.drop_last().contains(n) {
            let k = choose|k: int| 0 <= k < s.len() - 1 && s.drop_last()[k] == n;
            assert(s[k] == n);
        }
        assert(s[s.len() - 1] == s.last());
        if before.contains(n) {
            let k = choose|k: int| 0 <= k < before.len() && before[k] == n;
            assert(before.push(s.last())[k] == n);
        }
        assert(before.push(s.last())[before.len() as int] == s.last());
        if t.contains(n) {
            let k = choose|k: int| 0 <= k < t.len() && t[k] == n;
            if t == before.push(s.last()) && k < before.len() {
                assert(before[k] == n);
            }
        }
    }
}

proof fn lemma_missing_depends_on_members(s: Seq<NameView>, a: Seq<NameView>, b: Seq<NameView>)
    requires
        forall|n: NameView| #[trigger] a.contains(n) == b.contains(n),
    ensures
        missing(s, a) == missing(s, b),
    decreases s.len(),
{
    if s.len() > 0 {
        lemma_missing_depends_on_members(s.drop_last(), a, b);
    }
}

fn table_of(us: &Vec<(UnitName, LoadedUnit)>) -> (r: NameTable)
    ensures
        forall|n: NameView| #[trigger]
            r@.contains(n) == name_map::names_of(loaded_pairs(us@)).contains(n),
{
    let ghost all = name_map::names_of(loaded_pairs(us@));
    let ghost f = |a: Seq<NameView>, x: NameView| name_map::with_name(a, x);
    let mut out = NameTable::new();
    let mut i: usize = 0;
    proof {
        assert(all.take(0) =~= seq![]);
        reveal_with_fuel(Seq::fold_left, 2);
    }
    while i < us.len()
        invariant
            i <= us.len(),
            all == name_map::names_of(loaded_pairs(us@)),
            f == (|a: Seq<NameView>, x: NameView| name_map::with_name(a, x)),
            out@ == all.take(i as int).fold_left(Seq::<NameView>::empty(), f),
        decreases us.len() - i,
    {
        let _ = out.insert(us[i].0.clone());
        proof {
            reveal_with_fuel(Seq::fold_left, 2);
            assert(all.take(i + 1).drop_last() =~= all.take(i as int));
            assert(all.take(i + 1).last() == us@[i as int].0@);
        }
        i = i + 1;
    }
    proof {
        assert(all.take(all.len() as int) =~= all);
        assert forall|n: NameView| #[trigger] out@.contains(n) == all.contains(n) by {
            lemma_table_of(all, out@, n);
        }
    }
    out
}

impl Manager {
    fn drop_unit(&mut self, n: &UnitName)
        ensures
            final(self)@ == without_unit(old(self)@, n@),
    {
        let _ = self.units.take(n);
        let _ = self.status.take(n);
        let _ = self.services.take(n);
    }

    fn drop_units(&mut self, ns: &Vec<UnitName>, events: &mut Vec<UnitEvent>)
        ensures
            final(self)@ == without_units(old(self)@, name_set::names_view(ns@)),
            events_view(final(events)@) == events_view(old(events)@) + name_set::names_view(
                ns@,
            ).map_values(|n: NameView| EventView::UnitRemoved(n)),
    {
        let ghost all = name_set::names_view(ns@);
        let ghost told = all.map_values(|n: NameView| EventView::UnitRemoved(n));
        let mut i: usize = 0;
        proof {
            assert(events_view(events@) + told.take(0) =~= events_view(events@));
        }
        while i < ns.len()
            invariant
                i <= ns.len(),
                all == name_set::names_view(ns@),
                told == all.map_values(|n: NameView| EventView::UnitRemoved(n)),
                self@ == without_units(old(self)@, all.take(i as int)),
                events_view(events@) =~= events_view(old(events)@) + told.take(i as int),
            decreases ns.len() - i,
        {
            proof {
                assert(all.take(i + 1).drop_last() =~= all.take(i as int));
                assert(all.take(i + 1).last() == ns@[i as int]@);
            }
            self.drop_unit(&ns[i]);
            push_event(events, UnitEvent::UnitRemoved(ns[i].clone()));
            i = i + 1;
        }
        proof {
            assert(all.take(all.len() as int) =~= all);
            assert(told.take(told.len() as int) =~= told);
        }
    }

    fn reload_one(&mut self, n: UnitName, lu: LoadedUnit)
        ensures
            final(self)@ == with_reloaded(old(self)@, n@, lu@),
    {
        let st = match self.status.take(&n) {
            Some(st) => {
                let mut st = st;
                st.description = lu.unit.description.clone();
                st.load = LoadState::Loaded;
                st
            },
            None => {
                let mut st = UnitStatus::default();
                st.unit = Some(n.clone());
                st.load = LoadState::Loaded;
                st.description = lu.unit.description.clone();
                st
            },
        };
        if let UnitTypeData::Service(svc) = &lu.unit.kind {
            let mut runner = ServiceRunner::new(n.clone(), svc.clone());
            if let Some(before) = self.services.lookup(&n) {
                runner.state = before.state;
                runner.sub = before.sub.clone();
                runner.main_pid = before.main_pid;
            }
            self.services.put(n.clone(), runner);
        }
        self.units.put(n.clone(), lu);
        self.status.put(n, st);
    }

    fn reload_all(&mut self, found: Vec<(UnitName, LoadedUnit)>, events: &mut Vec<UnitEvent>)
        ensures
            final(self)@ == with_all_reloaded(old(self)@, loaded_pairs(found@)),
            events_view(final(events)@) == events_view(old(events)@) + loaded_pairs(
                found@,
            ).map_values(|p: (NameView, LoadedView)| EventView::UnitNew(p.0)),
    {
        let ghost us = loaded_pairs(found@);
        let ghost told = us.map_values(|p: (NameView, LoadedView)| EventView::UnitNew(p.0));
        let ghost first = events_view(events@);
        let ghost mut i: int = 0;
        let mut found = found;
        proof {
            assert(first + told.take(0) =~= first);
            assert(loaded_pairs(found@) =~= us.skip(0));
        }
        while found.len() > 0
            invariant
                0 <= i,
                i + found.len() == us.len(),
                loaded_pairs(found@) == us.skip(i),
                told == us.map_values(|p: (NameView, LoadedView)| EventView::UnitNew(p.0)),
                self@ == with_all_reloaded(old(self)@, us.take(i)),
                events_view(events@) =~= first + told.take(i),
            decreases found.len(),
        {
            let ghost rest = found@;
            let (n, lu) = found.remove(0);
            proof {
                assert(loaded_pairs(rest)[0] == (n@, lu@));
                assert(us.skip(i)[0] == us[i]);
                assert(us[i] == (n@, lu@));
                assert(loaded_pairs(found@) =~= loaded_pairs(rest).skip(1));
                assert(us.skip(i).skip(1) =~= us.skip(i + 1));
                assert(us.take(i + 1).drop_last() =~= us.take(i));
                assert(us.take(i + 1).last() == (n@, lu@));
                assert(told[i] == EventView::UnitNew(n@));
            }
            push_event(events, UnitEvent::UnitNew(n.clone()));
            self.reload_one(n, lu);
            proof {
                i = i + 1;
            }
        }
        proof {
            assert(us.take(us.len() as int) =~= us);
            assert(told.take(told.len() as int) =~= told);
        }
    }

    /// `daemon-reload` — refreshes `units` with those that were found and
    /// loaded. Units that are gone are unloaded; the others keep their state,
    /// and services their main process.
    pub fn daemon_reload(&mut self, found: Vec<(UnitName, LoadedUnit)>) -> (r: Vec<UnitEvent>)
        ensures
            final(self)@ == reloaded(old(self)@, loaded_pairs(found@)),
            events_view(r@) == reload_events(old(self)@, loaded_pairs(found@)),
    {
        let mut events: Vec<UnitEvent> = Vec::new();
        let kept = table_of(&found);
        let gone = missing_names(&self.units.names(), &kept);
        proof {
            self.units.lemma_names();
            lemma_missing_depends_on_members(
                name_map::names_of(self@.units),
                kept@,
                name_map::names_of(loaded_pairs(found@)),
            );
            assert(events_view(events@) =~= seq![]);
        }
        self.drop_units(&gone, &mut events);
        self.reload_all(found, &mut events);
        proof {
            assert(events_view(events@) =~= reload_events(old(self)@, loaded_pairs(found@)));
        }
        events
    }
}

// ---------------------------------------------------------------------
// Jobs
// ---------------------------------------------------------------------

/// The manager after a job id was handed out; the largest id is handed out
/// again and again.
pub open spec fn with_job(m: ManagerView) -> ManagerView {
    ManagerView {
        next_job_id: if m.next_job_id == u32::MAX {
            u32::MAX
        } else {
            (m.next_job_id + 1) as u32
        },
        ..m
    }
}

/// The sub-state of a unit of a kind that was started: a timer or path waits,
/// a socket listens.
pub open spec fn started_sub(kind: UnitKind) -> Seq<char> {
    match kind {
        UnitKind::Target => "active"@,
        UnitKind::Timer | UnitKind::Path => "waiting"@,
        UnitKind::Socket => "listening"@,
        _ => "running"@,
    }
}

/// Whether a unit is a timer that remembers when it last fired.
pub open spec fn is_persistent_timer(m: ManagerView, n: NameView) -> bool {
    match name_map::found(m.units, n) {
        Some(lu) => match lu.unit.kind {
            TypeView::Timer(t) => t.persistent,
            _ => false,
        },
        None => false,
    }
}

/// What is left to do of a start.
#[derive(Debug, Clone, Copy, PartialEq, Eq, Structural)]
pub enum StartPlan {
    /// Run the service, then report with [`Manager::service_started`].
    RunService,
    /// The job is done.
    Finished {
        /// Whether the timer scheduler has to look again.
        wake_timers: bool,
        /// Whether the timer's last-fire stamp has to be written, where there
        /// is none.
        stamp: bool,
    },
}

/// The result of a start job.
#[derive(Debug)]
pub struct StartJob {
    /// The job's id.
    pub id: JobId,
    /// What subscribers are told.
    pub events: Vec<UnitEvent>,
    /// What is left to do, or why there is nothing to start.
    pub plan: Result<StartPlan, String>,
}

/// A [`StartJob`] by its characters.
pub struct StartView {
    pub id: JobId,
    pub events: Seq<EventView>,
    pub plan: Result<StartPlan, Seq<char>>,
}

impl View for StartJob {
    type V = StartView;

    open spec fn view(&self) -> StartView {
        StartView {
            id: self.id,
            events: events_view(self.events@),
            plan: match self.plan {
                Ok(p) => Ok(p),
                Err(e) => Err(e@),
            },
        }
    }
}

/// A start: a service is handed over to its runner, any other unit is active
/// at once.
pub open spec fn run_start(
    m: ManagerView,
    n: NameView,
    id: JobId,
    events: Seq<EventView>,
) -> (ManagerView, StartView) {
    if n.kind is Service {
        match name_map::found(m.services, n) {
            None => (
                m,
                StartView { id, events, plan: Err("no runner for "@ + name::name_text(n)) },
            ),
            Some(_) => (
                marked(m, n, ActiveState::Activating, "start"@),
                StartView {
                    id,
                    events: events.push(state_event(n, ActiveState::Activating, "start"@)),
                    plan: Ok(StartPlan::RunService),
                },
            ),
        }
    } else {
        (
            marked(m, n, ActiveState::Active, started_sub(n.kind)),
            StartView {
                id,
                events: events.push(state_event(n, ActiveState::Active, started_sub(n.kind))).push(
                    EventView::JobRemoved { id, unit: n, outcome: JobOutcome::Done },
                ),
                plan: Ok(
                    StartPlan::Finished {
                        wake_timers: n.kind is Timer,
                        stamp: n.kind is Timer && is_persistent_timer(m, n),
                    },
                ),
            },
        )
    }
}

/// The event of a new job.
pub open spec fn job_event(m: ManagerView, n: NameView, kind: JobType) -> EventView {
    EventView::JobNew { id: JobId(m.next_job_id), unit: n, kind }
}

impl Manager {
    /// Allocate the next job id.
    fn alloc_job_id(&mut self) -> (r: JobId)
        ensures
            r == JobId(old(self)@.next_job_id),
            final(self)@ == with_job(old(self)@),
    {
        let id = JobId(self.next_job_id);
        if self.next_job_id < u32::MAX {
            self.next_job_id = self.next_job_id + 1;
        }
        id
    }

    fn queue(&mut self, n: &UnitName, kind: JobType) -> (r: (JobId, UnitEvent))
        ensures
            r.0 == JobId(old(self)@.next_job_id),
            r.1@ == job_event(old(self)@, n@, kind),
            final(self)@ == with_job(old(self)@),
    {
        let id = self.alloc_job_id();
        (id, UnitEvent::JobNew { id, unit: n.clone(), kind })
    }

    /// Whether a unit is a timer that remembers when it last fired.
    fn is_persistent_timer(&self, n: &UnitName) -> (r: bool)
        ensures
            r == is_persistent_timer(self@, n@),
    {
        match self.units.lookup(n) {
            Some(lu) => match &lu.unit.kind {
                UnitTypeData::Timer(t) => t.persistent,
                _ => false,
            },
            None => false,
        }
    }

    fn run_start(&mut self, n: &UnitName, id: JobId, events: Vec<UnitEvent>) -> (r: StartJob)
        ensures
            (final(self)@, r@) == run_start(old(self)@, n@, id, events_view(events@)),
    {
        let mut events = events;
        if n.kind == UnitKind::Service {
            if self.services.lookup(n).is_none() {
                let mut e = "no runner for ".to_owned();
                e.append(n.filename().as_str());
                return StartJob { id, events, plan: Err(e) };
            }
            push_event(&mut events, self.mark_state(n, ActiveState::Activating, "start"));
            return StartJob { id, events, plan: Ok(StartPlan::RunService) };
        }
        let stamp = n.kind == UnitKind::Timer && self.is_persistent_timer(n);
        let sub = match n.kind {
            UnitKind::Target => "active",
            UnitKind::Timer | UnitKind::Path => "waiting",
            UnitKind::Socket => "listening",
            _ => "running",
        };
        push_event(&mut events, self.mark_state(n, ActiveState::Active, sub));
        push_event(
            &mut events,
            UnitEvent::JobRemoved { id, unit: n.clone(), outcome: JobOutcome::Done },
        );
        StartJob {
            id,
            events,
            plan: Ok(StartPlan::Finished { wake_timers: n.kind == UnitKind::Timer, stamp }),
        }
    }

    /// Start a unit: queues the job, and does what can be done at once.
    pub fn start_unit(&mut self, n: &UnitName) -> (r: StartJob)
        ensures
            (final(self)@, r@) == run_start(
                with_job(old(self)@),
                n@,
                JobId(old(self)@.next_job_id),
                seq![job_event(old(self)@, n@, JobType::Start)],
            ),
    {
        let (id, e) = self.queue(n, JobType::Start);
        let mut events: Vec<UnitEvent> = Vec::new();
        events.push(e);
        proof {
            assert(events_view(events@) =~= seq![e@]);
        }
        self.run_start(n, id, events)
    }

    /// A service has been run to where its start ends: publishes its state and
    /// the outcome of its job. Gives whether it gets a supervisor.
    pub fn service_started(
        &mut self,
        n: &UnitName,
        id: JobId,
        active: ActiveState,
        sub: &str,
        service_type: ServiceType,
        failed: bool,
    ) -> (r: (Vec<UnitEvent>, bool))
        ensures
            final(self)@ == marked(old(self)@, n@, active, sub@),
            events_view(r.0@) == seq![
                state_event(n@, active, sub@),
                EventView::JobRemoved {
                    id,
                    unit: n@,
                    outcome: if failed {
                        JobOutcome::Failed
                    } else {
                        JobOutcome::Done
                    },
                },
            ],
            r.1 == (active is Active && !(service::watch_of(service_type) is Nothing)),
    {
        let mut events: Vec<UnitEvent> = Vec::new();
        events.push(self.mark_state(n, active, sub));
        let outcome = if failed {
            JobOutcome::Failed
        } else {
            JobOutcome::Done
        };
        events.push(UnitEvent::JobRemoved { id, unit: n.clone(), outcome });
        proof {
            assert(events_view(events@) =~= seq![
                state_event(n@, active, sub@),
                EventView::JobRemoved { id, unit: n@, outcome },
            ]);
        }
        (events, needs_supervisor(active, service_type))
    }

    /// Stop a unit: queues the job. A service's runner is stopped before
    /// [`Manager::unit_stopped`] is called.
    pub fn stop_unit(&mut self, n: &UnitName) -> (r: (JobId, UnitEvent))
        ensures
            r.0 == JobId(old(self)@.next_job_id),
            r.1@ == job_event(old(self)@, n@, JobType::Stop),
            final(self)@ == with_job(old(self)@),
    {
        self.queue(n, JobType::Stop)
    }

    /// The unit is stopped: publishes its state and the outcome of its job.
    /// Gives whether the timer scheduler has to look again.
    pub fn unit_stopped(&mut self, n: &UnitName, id: JobId) -> (r: (Vec<UnitEvent>, bool))
        ensures
            final(self)@ == marked(old(self)@, n@, ActiveState::Inactive, "dead"@),
            events_view(r.0@) == seq![
                state_event(n@, ActiveState::Inactive, "dead"@),
                EventView::JobRemoved { id, unit: n@, outcome: JobOutcome::Done },
            ],
            r.1 == (n@.kind is Timer),
    {
        let mut events: Vec<UnitEvent> = Vec::new();
        events.push(self.mark_state(n, ActiveState::Inactive, "dead"));
        events.push(UnitEvent::JobRemoved { id, unit: n.clone(), outcome: JobOutcome::Done });
        proof {
            assert(events_view(events@) =~= seq![
                state_event(n@, ActiveState::Inactive, "dead"@),
                EventView::JobRemoved { id, unit: n@, outcome: JobOutcome::Done },
            ]);
        }
        (events, n.kind == UnitKind::Timer)
    }

    /// Restart a unit: queues the job. A service's runner is stopped before
    /// [`Manager::restart_stopped`] is called.
    pub fn restart_unit(&mut self, n: &UnitName) -> (r: (JobId, UnitEvent))
        ensures
            r.0 == JobId(old(self)@.next_job_id),
            r.1@ == job_event(old(self)@, n@, JobType::Restart),
            final(self)@ == with_job(old(self)@),
    {
        self.queue(n, JobType::Restart)
    }

    /// The unit to restart is stopped: publishes its state and starts it.
    pub fn restart_stopped(&mut self, n: &UnitName, id: JobId) -> (r: StartJob)
        ensures
            (final(self)@, r@) == run_start(
                marked(old(self)@, n@, ActiveState::Inactive, "dead"@),
                n@,
                id,
                seq![state_event(n@, ActiveState::Inactive, "dead"@)],
            ),
    {
        let mut events: Vec<UnitEvent> = Vec::new();
        events.push(self.mark_state(n, ActiveState::Inactive, "dead"));
        proof {
            assert(events_view(events@) =~= seq![
                state_event(n@, ActiveState::Inactive, "dead"@),
            ]);
        }
        self.run_start(n, id, events)
    }

    /// Reload a unit: queues the job. Gives whether there is a runner to reload
    /// before [`Manager::unit_reloaded`] is called.
    pub fn reload_unit(&mut self, n: &UnitName) -> (r: (JobId, UnitEvent, bool))
        ensures
            r.0 == JobId(old(self)@.next_job_id),
            r.1@ == job_event(old(self)@, n@, JobType::Reload),
            r.2 == (name_map::found(old(self)@.services, n@) is Some),
            final(self)@ == with_job(old(self)@),
    {
        let (id, e) = self.queue(n, JobType::Reload);
        (id, e, self.services.lookup(n).is_some())
    }

    /// The outcome of a reload job, given whether the runner could reload,
    /// where there is one.
    pub fn unit_reloaded(n: &UnitName, id: JobId, result: Option<bool>) -> (r: UnitEvent)
        ensures
            r@ == (EventView::JobRemoved {
                id,
                unit: n@,
                outcome: match result {
                    Some(true) => JobOutcome::Done,
                    Some(false) => JobOutcome::Failed,
                    None => JobOutcome::Skipped,
                },
            }),
    {
        let outcome = match result {
            Some(true) => JobOutcome::Done,
            Some(false) => JobOutcome::Failed,
            None => JobOutcome::Skipped,
        };
        UnitEvent::JobRemoved { id, unit: n.clone(), outcome }
    }
}

/// The manager after the failed state of a unit was cleared: it is inactive.
pub open spec fn reset(m: ManagerView, n: NameView) -> ManagerView {
    if status_of(m, n).active is Failed {
        marked(m, n, ActiveState::Inactive, "dead"@)
    } else {
        m
    }
}

impl Manager {
    /// Clears the failed state of a unit. Gives what subscribers are told,
    /// where it had failed.
    pub fn reset_failed_unit(&mut self, n: &UnitName) -> (r: Option<UnitEvent>)
        ensures
            final(self)@ == reset(old(self)@, n@),
            match r {
                Some(e) => status_of(old(self)@, n@).active is Failed && e@ == state_event(
                    n@,
                    ActiveState::Inactive,
                    "dead"@,
                ),
                None => !(status_of(old(self)@, n@).active is Failed),
            },
    {
        if self.unit_status(n).active == ActiveState::Failed {
            Some(self.mark_state(n, ActiveState::Inactive, "dead"))
        } else {
            None
        }
    }
}

/// Whether a unit is one to activate at startup: a timer, service, path or
/// socket that is enabled and not active yet.
pub open spec fn to_activate(m: ManagerView, n: NameView, has_link: bool) -> bool {
    &&& n.kind is Timer || n.kind is Service || n.kind is Path || n.kind is Socket
    &&& !(name_map::found(m.status, n) matches Some(st) && st.active is Active)
    &&& has_link
}

impl Manager {
    /// Whether a loaded unit is auto-activated, given whether it has an
    /// enable-link in any search path. Targets are pulled in implicitly when
    /// needed; units that are active already are skipped.
    pub fn activates_at_startup(&self, n: &UnitName, has_link: bool) -> (r: bool)
        ensures
            r == to_activate(self@, n@, has_link),
    {
        match n.kind {
            UnitKind::Timer | UnitKind::Service | UnitKind::Path | UnitKind::Socket => {},
            _ => {
                return false;
            },
        }
        if let Some(st) = self.status.lookup(n) {
            if st.active == ActiveState::Active {
                return false;
            }
        }
        has_link
    }
}

// ---------------------------------------------------------------------
// Unit files
// ---------------------------------------------------------------------

/// What was seen of a unit on disk.
#[derive(Debug, PartialEq, Eq)]
pub struct FileFacts {
    /// What the unit's own link in the config directory points to.
    pub own: Option<String>,
    /// The search path.
    pub search: Vec<String>,
    /// Whether it is linked to a target.
    pub has_link: bool,
    /// Whether it has a fragment.
    pub has_fragment: bool,
}

/// The `[Install]` section of a unit, where it is loaded.
pub open spec fn install_section(m: ManagerView, n: NameView) -> Option<InstallView> {
    match name_map::found(m.units, n) {
        Some(lu) => Some(lu.unit.install),
        None => None,
    }
}

/// The state of a unit's file.
pub open spec fn file_state_of(m: ManagerView, n: NameView, facts: FileFacts) -> Seq<char> {
    install::file_state(
        text::opt_text(facts.own),
        text::texts(facts.search@),
        facts.has_link,
        facts.has_fragment,
        install_section(m, n),
    )
}

/// Unit files with their states, given what was seen of each unit on disk.
pub open spec fn listed_files(
    m: ManagerView,
    files: Seq<(NameView, Seq<char>)>,
    facts: Seq<FileFacts>,
) -> Seq<(NameView, Seq<char>, Seq<char>)> {
    Seq::new(
        files.len(),
        |i: int| (files[i].0, files[i].1, file_state_of(m, files[i].0, facts[i])),
    )
}

/// The views of unit files with their states.
pub open spec fn listed_view(v: Seq<(UnitName, String, &'static str)>) -> Seq<
    (NameView, Seq<char>, Seq<char>),
> {
    v.map_values(|x: (UnitName, String, &'static str)| (x.0@, x.1@, x.2@))
}

/// Some names, and behind them those that their `Also=` names, one hop far,
/// each once.
pub open spec fn with_also(m: ManagerView, given: Seq<NameView>, ns: Seq<NameView>) -> Seq<NameView>
    decreases ns.len(),
{
    if ns.len() == 0 {
        given
    } else {
        let before = with_also(m, given, ns.drop_last());
        match install_section(m, ns.last()) {
            Some(i) => all_with(before, i.also),
            None => before,
        }
    }
}

/// A list of names with others, each unless it is there.
pub open spec fn all_with(s: Seq<NameView>, more: Seq<NameView>) -> Seq<NameView>
    decreases more.len(),
{
    if more.len() == 0 {
        s
    } else {
        name_map::with_name(all_with(s, more.drop_last()), more.last())
    }
}

fn name_in(s: &Vec<UnitName>, n: &UnitName) -> (r: bool)
    ensures
        r == name_set::names_view(s@).contains(n@),
{
    let ghost all = name_set::names_view(s@);
    let mut i: usize = 0;
    while i < s.len()
        invariant
            i <= s.len(),
            all == name_set::names_view(s@),
            forall|j: int| 0 <= j < i ==> #[trigger] all[j] != n@,
        decreases s.len() - i,
    {
        proof {
            assert(all[i as int] == s@[i as int]@);
        }
        if s[i].same_as(n) {
            return true;
        }
        i = i + 1;
    }
    false
}

impl Manager {
    /// `(unit_file_state)` per `systemctl is-enabled`, given what was seen of
    /// the unit on disk.
    pub fn unit_file_state(&self, n: &UnitName, facts: &FileFacts) -> (r: &'static str)
        ensures
            r@ == file_state_of(self@, n@, *facts),
    {
        let i: Option<&Install> = match self.units.lookup(n) {
            Some(lu) => Some(&lu.unit.install),
            None => None,
        };
        install::unit_file_state(
            &facts.own,
            &facts.search,
            facts.has_link,
            facts.has_fragment,
            i,
        )
    }

    /// Every unit file of the search path with its state, given the files that
    /// were found and what was seen of each unit on disk.
    pub fn list_unit_files(&self, found: &NameMap<String>, facts: &Vec<FileFacts>) -> (r: Vec<
        (UnitName, String, &'static str),
    >)
        requires
            facts@.len() == found.entries().len(),
        ensures
            listed_view(r@) == listed_files(self@, found.entries(), facts@),
    {
        let ghost files = found.entries();
        let ghost all = listed_files(self@, files, facts@);
        let mut out: Vec<(UnitName, String, &'static str)> = Vec::new();
        let mut i: usize = 0;
        proof {
            assert(listed_view(out@) =~= all.take(0));
        }
        while i < found.len()
            invariant
                i <= found.keys().len(),
                files == found.entries(),
                facts@.len() == found.keys().len(),
                all == listed_files(self@, files, facts@),
                listed_view(out@) == all.take(i as int),
            decreases found.keys().len() - i,
        {
            let ghost before = out@;
            let n = found.name_at(i);
            let state = self.unit_file_state(n, &facts[i]);
            out.push((n.clone(), found.value_at(i).clone(), state));
            proof {
                assert(listed_view(out@) =~= listed_view(before).push(all[i as int]));
                assert(all.take(i + 1) =~= all.take(i as int).push(all[i as int]));
            }
            i = i + 1;
        }
        proof {
            assert(all.take(all.len() as int) =~= all);
        }
        out
    }

    /// Path of the main fragment.
    pub fn fragment_path(&self, n: &UnitName) -> (r: Option<String>)
        ensures
            text::opt_text(r) == match name_map::found(self@.units, n@) {
                Some(lu) => if lu.unit.fragment_paths.len() > 0 {
                    Some(lu.unit.fragment_paths[0])
                } else {
                    None
                },
                None => None,
            },
    {
        match self.units.lookup(n) {
            Some(lu) => {
                if lu.unit.fragment_paths.len() > 0 {
                    Some(lu.unit.fragment_paths[0].clone())
                } else {
                    None
                }
            },
            None => None,
        }
    }

    /// The `[Install]` section of a unit; nothing is set in that of one that is
    /// not loaded.
    pub fn install_of(&self, n: &UnitName) -> (r: Install)
        ensures
            r@ == match install_section(self@, n@) {
                Some(i) => i,
                None => crate::unit::install::empty_install(),
            },
    {
        match self.units.lookup(n) {
            Some(lu) => lu.unit.install.clone(),
            None => Install::default(),
        }
    }

    /// The units that enabling or disabling some units is about: those, and
    /// what their `Also=` names.
    pub fn with_also(&self, names: &Vec<UnitName>) -> (r: Vec<UnitName>)
        ensures
            name_set::names_view(r@) == with_also(
                self@,
                name_set::names_view(names@),
                name_set::names_view(names@),
            ),
    {
        let ghost all = name_set::names_view(names@);
        let mut out = copy_names(names);
        let mut i: usize = 0;
        while i < names.len()
            invariant
                i <= names.len(),
                all == name_set::names_view(names@),
                name_set::names_view(out@) == with_also(self@, all, all.take(i as int)),
            decreases names.len() - i,
        {
            proof {
                assert(all.take(i + 1).drop_last() =~= all.take(i as int));
                assert(all.take(i + 1).last() == names@[i as int]@);
            }
            if let Some(lu) = self.units.lookup(&names[i]) {
                let also = lu.unit.install.also.names();
                let ghost more = name_set::names_view(also@);
                let ghost first = name_set::names_view(out@);
                let mut j: usize = 0;
                while j < also.len()
                    invariant
                        j <= also.len(),
                        more == name_set::names_view(also@),
                        name_set::names_view(out@) == all_with(first, more.take(j as int)),
                    decreases also.len() - j,
                {
                    proof {
                        assert(more.take(j + 1).drop_last() =~= more.take(j as int));
                        assert(more.take(j + 1).last() == also@[j as int]@);
                    }
                    if !name_in(&out, &also[j]) {
                        let ghost before = out@;
                        out.push(also[j].clone());
                        proof {
                            assert(name_set::names_view(out@) =~= name_set::names_view(before).push(
                                more[j as int],
                            ));
                        }
                    }
                    j = j + 1;
                }
                proof {
                    assert(more.take(more.len() as int) =~= more);
                }
            }
            i = i + 1;
        }
        proof {
            assert(all.take(all.len() as int) =~= all);
        }
        out
    }
}

/// The result of an operation on one unit added to that of the units before
/// it.
pub fn add_changes(total: &mut EnableChanges, one: EnableChanges)
    ensures
        final(total)@ == (EnableView {
            carries_install_info: old(total)@.carries_install_info || one@.carries_install_info,
            changes: old(total)@.changes + one@.changes,
        }),
{
    let ghost more = one@.changes;
    let mut one = one;
    total.carries_install_info = total.carries_install_info || one.carries_install_info;
    total.changes.append(&mut one.changes);
    proof {
        assert(install::changes_view(total.changes@) =~= old(total)@.changes + more);
    }
}

} // verus!
