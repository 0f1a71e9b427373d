//! What `org.freedesktop.systemd1.Manager` answers.
//!
//! This is the entry point upstream `systemctl --user` calls into.

use crate::bus::object_path;
use crate::bus::object_path::unit_object_path;
use crate::deps::job::JobMode;
use crate::runtime::install::{ChangeView, EnableChanges};
use crate::runtime::manager;
use crate::runtime::manager::{Manager, ManagerView};
use crate::runtime::properties;
use crate::runtime::state::{ActiveState, LoadState, StatusView, UnitStatus};
use crate::text;
use crate::text::{debug_text, same};
use crate::unit::error;
use crate::unit::name;
use crate::unit::name::{NameView, UnitName};
use crate::unit::name_map;
use crate::unit::name_set;
use vstd::prelude::*;
use vstd::slice::slice_subrange;

verus! {

/// Why a method call fails.
#[derive(Debug, PartialEq, Eq)]
pub enum BusError {
    /// An argument cannot be read.
    InvalidArgs(String),
    /// The call cannot be carried out.
    Failed(String),
}

/// A [`BusError`] by its characters.
pub enum BusErrorView {
    InvalidArgs(Seq<char>),
    Failed(Seq<char>),
}

impl View for BusError {
    type V = BusErrorView;

    open spec fn view(&self) -> BusErrorView {
        match *self {
            BusError::InvalidArgs(s) => BusErrorView::InvalidArgs(s@),
            BusError::Failed(s) => BusErrorView::Failed(s@),
        }
    }
}

// ---------------------------------------------------------------------
// Arguments
// ---------------------------------------------------------------------

/// The unit name of an argument.
pub open spec fn name_argument(s: Seq<char>) -> Result<NameView, BusErrorView> {
    match name::parse_name_result(s) {
        Ok(n) => Ok(n),
        Err(e) => Err(
            BusErrorView::InvalidArgs(
                "bad unit name "@ + text::debug_form(s) + ": "@ + error::error_text(e),
            ),
        ),
    }
}

/// Reads a unit name.
pub fn parse_name(s: &str) -> (r: Result<UnitName, BusError>)
    ensures
        match r {
            Ok(n) => name_argument(s@) == Ok::<NameView, BusErrorView>(n@),
            Err(e) => name_argument(s@) == Err::<NameView, BusErrorView>(e@),
        },
{
    match UnitName::from_str(s) {
        Ok(n) => Ok(n),
        Err(e) => {
            let mut m = "bad unit name ".to_owned();
            m.append(debug_text(s).as_str());
            m.append(": ");
            m.append(e.message().as_str());
            Err(BusError::InvalidArgs(m))
        },
    }
}

/// The unit names of some arguments; the first that cannot be read gives the
/// error.
pub open spec fn name_arguments(ss: Seq<Seq<char>>) -> Result<Seq<NameView>, BusErrorView>
    decreases ss.len(),
{
    if ss.len() == 0 {
        Ok(seq![])
    } else {
        match name_arguments(ss.drop_last()) {
            Err(e) => Err(e),
            Ok(before) => match name_argument(ss.last()) {
                Err(e) => Err(e),
                Ok(n) => Ok(before.push(n)),
            },
        }
    }
}

proof fn lemma_first_bad_name(ss: Seq<Seq<char>>, n: int)
    requires
        0 <= n <= ss.len(),
        name_arguments(ss.take(n)) is Err,
    ensures
        name_arguments(ss) == name_arguments(ss.take(n)),
    decreases ss.len(),
{
    if n == ss.len() {
        assert(ss.take(n) =~= ss);
    } else {
        assert(ss.drop_last().take(n) =~= ss.take(n));
        lemma_first_bad_name(ss.drop_last(), n);
    }
}

/// Reads unit names.
pub fn parse_names(ss: &Vec<String>) -> (r: Result<Vec<UnitName>, BusError>)
    ensures
        match r {
            Ok(ns) => name_arguments(text::texts(ss@)) == Ok::<Seq<NameView>, BusErrorView>(
                name_set::names_view(ns@),
            ),
            Err(e) => name_arguments(text::texts(ss@)) == Err::<Seq<NameView>, BusErrorView>(e@),
        },
{
    let ghost all = text::texts(ss@);
    let mut out: Vec<UnitName> = Vec::new();
    let mut i: usize = 0;
    proof {
        assert(name_set::names_view(out@) =~= seq![]);
    }
    while i < ss.len()
        invariant
            i <= ss.len(),
            all == text::texts(ss@),
            name_arguments(all.take(i as int)) == Ok::<Seq<NameView>, BusErrorView>(
                name_set::names_view(out@),
            ),
        decreases ss.len() - i,
    {
        proof {
            assert(all.take(i + 1).drop_last() =~= all.take(i as int));
            assert(all.take(i + 1).last() == ss@[i as int]@);
        }
        match parse_name(ss[i].as_str()) {
            Ok(n) => {
                let ghost before = out@;
                out.push(n);
                proof {
                    assert(name_set::names_view(out@) =~= name_set::names_view(before).push(n@));
                }
            },
            Err(e) => {
                proof {
                    lemma_first_bad_name(all, i + 1);
                }
                return Err(e);
            },
        }
        i = i + 1;
    }
    proof {
        assert(all.take(all.len() as int) =~= all);
    }
    Ok(out)
}

/// The job mode of an argument.
pub open spec fn mode_argument(s: Seq<char>) -> Result<JobMode, BusErrorView> {
    if s == "fail"@ {
        Ok(JobMode::Fail)
    } else if s == "replace"@ || s == ""@ {
        Ok(JobMode::Replace)
    } else if s == "replace-irreversibly"@ {
        Ok(JobMode::ReplaceIrreversibly)
    } else if s == "isolate"@ {
        Ok(JobMode::Isolate)
    } else if s == "flush"@ {
        Ok(JobMode::Flush)
    } else if s == "ignore-dependencies"@ {
        Ok(JobMode::IgnoreDependencies)
    } else if s == "ignore-requirements"@ {
        Ok(JobMode::IgnoreRequirements)
    } else {
        Err(BusErrorView::InvalidArgs("unknown job mode "@ + text::debug_form(s)))
    }
}

/// Reads a job mode.
pub fn parse_mode(s: &str) -> (r: Result<JobMode, BusError>)
    ensures
        match r {
            Ok(m) => mode_argument(s@) == Ok::<JobMode, BusErrorView>(m),
            Err(e) => mode_argument(s@) == Err::<JobMode, BusErrorView>(e@),
        },
{
    if same(s, "fail") {
        Ok(JobMode::Fail)
    } else if same(s, "replace") || same(s, "") {
        Ok(JobMode::Replace)
    } else if same(s, "replace-irreversibly") {
        Ok(JobMode::ReplaceIrreversibly)
    } else if same(s, "isolate") {
        Ok(JobMode::Isolate)
    } else if same(s, "flush") {
        Ok(JobMode::Flush)
    } else if same(s, "ignore-dependencies") {
        Ok(JobMode::IgnoreDependencies)
    } else if same(s, "ignore-requirements") {
        Ok(JobMode::IgnoreRequirements)
    } else {
        let mut m = "unknown job mode ".to_owned();
        m.append(debug_text(s).as_str());
        Err(BusError::InvalidArgs(m))
    }
}

// ---------------------------------------------------------------------
// Answers
// ---------------------------------------------------------------------

/// The views of a list of triples.
pub open spec fn triples_view(v: Seq<(String, String, String)>) -> Seq<
    (Seq<char>, Seq<char>, Seq<char>),
> {
    v.map_values(|p: (String, String, String)| (p.0@, p.1@, p.2@))
}

/// systemd `(sss)` change-records for enable/disable/mask/unmask:
/// `(type, target, source)`.
pub fn convert_changes(c: &EnableChanges) -> (r: Vec<(String, String, String)>)
    ensures
        triples_view(r@) == c@.changes.map_values(
            |x: ChangeView| (x.change_type, x.target, x.source),
        ),
{
    let ghost all = c@.changes.map_values(|x: ChangeView| (x.change_type, x.target, x.source));
    let mut out: Vec<(String, String, String)> = Vec::new();
    let mut i: usize = 0;
    proof {
        assert(triples_view(out@) =~= all.take(0));
    }
    while i < c.changes.len()
        invariant
            i <= c.changes.len(),
            all == c@.changes.map_values(|x: ChangeView| (x.change_type, x.target, x.source)),
            triples_view(out@) == all.take(i as int),
        decreases c.changes.len() - i,
    {
        let ghost before = out@;
        let x = &c.changes[i];
        out.push((x.change_type.clone(), x.target.clone(), x.source.clone()));
        proof {
            assert(c@.changes[i as int] == c.changes@[i as int]@);
            assert(triples_view(out@) =~= triples_view(before).push(all[i as int]));
            assert(all.take(i + 1) =~= all.take(i as int).push(all[i as int]));
        }
        i = i + 1;
    }
    proof {
        assert(all.take(all.len() as int) =~= all);
    }
    out
}

/// The systemd-canonical name of an active state.
pub open spec fn active_state_text(s: ActiveState) -> Seq<char> {
    match s {
        ActiveState::Inactive => "inactive"@,
        ActiveState::Activating => "activating"@,
        ActiveState::Active => "active"@,
        ActiveState::Deactivating => "deactivating"@,
        ActiveState::Failed => "failed"@,
        ActiveState::Reloading => "reloading"@,
        ActiveState::Maintenance => "maintenance"@,
    }
}

/// Map an [`ActiveState`] to its systemd-canonical string.
pub fn active_state_str(s: ActiveState) -> (r: &'static str)
    ensures
        r@ == active_state_text(s),
{
    match s {
        ActiveState::Inactive => "inactive",
        ActiveState::Activating => "activating",
        ActiveState::Active => "active",
        ActiveState::Deactivating => "deactivating",
        ActiveState::Failed => "failed",
        ActiveState::Reloading => "reloading",
        ActiveState::Maintenance => "maintenance",
    }
}

/// The systemd-canonical name of a load state.
pub open spec fn load_state_text(s: LoadState) -> Seq<char> {
    match s {
        LoadState::Loaded => "loaded"@,
        LoadState::Error => "error"@,
        LoadState::Stub => "stub"@,
        LoadState::Masked => "masked"@,
        LoadState::NotFound => "not-found"@,
        LoadState::Merged => "merged"@,
        LoadState::BadSetting => "bad-setting"@,
    }
}

/// Map a [`LoadState`] to its systemd-canonical string.
pub fn load_state_str(s: LoadState) -> (r: &'static str)
    ensures
        r@ == load_state_text(s),
{
    match s {
        LoadState::Loaded => "loaded",
        LoadState::Error => "error",
        LoadState::Stub => "stub",
        LoadState::Masked => "masked",
        LoadState::NotFound => "not-found",
        LoadState::Merged => "merged",
        LoadState::BadSetting => "bad-setting",
    }
}

/// One row of `ListUnits` / `ListUnitsByPatterns`.
#[derive(Debug, PartialEq, Eq)]
pub struct UnitListEntry {
    pub name: String,
    pub description: String,
    pub load_state: String,
    pub active_state: String,
    pub sub_state: String,
    pub follower: String,
    pub unit_path: String,
    pub job_id: u32,
    pub job_type: String,
    pub job_path: String,
}

/// A [`UnitListEntry`] by its characters.
pub struct RowView {
    pub name: Seq<char>,
    pub description: Seq<char>,
    pub load_state: Seq<char>,
    pub active_state: Seq<char>,
    pub sub_state: Seq<char>,
    pub follower: Seq<char>,
    pub unit_path: Seq<char>,
    pub job_id: u32,
    pub job_type: Seq<char>,
    pub job_path: Seq<char>,
}

impl View for UnitListEntry {
    type V = RowView;

    open spec fn view(&self) -> RowView {
        RowView {
            name: self.name@,
            description: self.description@,
            load_state: self.load_state@,
            active_state: self.active_state@,
            sub_state: self.sub_state@,
            follower: self.follower@,
            unit_path: self.unit_path@,
            job_id: self.job_id,
            job_type: self.job_type@,
            job_path: self.job_path@,
        }
    }
}

/// The views of a list of rows.
pub open spec fn rows_view(v: Seq<UnitListEntry>) -> Seq<RowView> {
    v.map_values(|e: UnitListEntry| e@)
}

/// The row of a unit: no unit follows another, and none shows a job.
pub open spec fn row_of(n: NameView, st: StatusView) -> RowView {
    RowView {
        name: name::name_text(n),
        description: st.description,
        load_state: load_state_text(st.load),
        active_state: active_state_text(st.active),
        sub_state: st.sub,
        follower: ""@,
        unit_path: object_path::unit_path(n),
        job_id: 0,
        job_type: ""@,
        job_path: "/"@,
    }
}

fn list_entry(n: &UnitName, st: &UnitStatus) -> (r: UnitListEntry)
    ensures
        r@ == row_of(n@, st@),
{
    UnitListEntry {
        name: n.filename(),
        description: st.description.clone(),
        load_state: load_state_str(st.load).to_owned(),
        active_state: active_state_str(st.active).to_owned(),
        sub_state: st.sub.clone(),
        follower: "".to_owned(),
        unit_path: unit_object_path(n),
        job_id: 0,
        job_type: "".to_owned(),
        job_path: "/".to_owned(),
    }
}

/// The rows of all units.
pub open spec fn all_rows(m: ManagerView) -> Seq<RowView> {
    m.status.map_values(|e: (NameView, StatusView)| row_of(e.0, e.1))
}

/// `ListUnits() -> Vec<UnitListEntry>`.
pub fn list_units(m: &Manager) -> (r: Vec<UnitListEntry>)
    ensures
        rows_view(r@) == all_rows(m@),
{
    let ghost all = all_rows(m@);
    let mut out: Vec<UnitListEntry> = Vec::new();
    let mut i: usize = 0;
    proof {
        assert(rows_view(out@) =~= all.take(0));
    }
    while i < m.status.len()
        invariant
            i <= m.status.keys().len(),
            all == all_rows(m@),
            rows_view(out@) == all.take(i as int),
        decreases m.status.keys().len() - i,
    {
        let ghost before = out@;
        out.push(list_entry(m.status.name_at(i), m.status.value_at(i)));
        proof {
            assert(m@.status[i as int] == (
                m.status.keys()[i as int],
                m.status.values()[i as int]@,
            ));
            assert(rows_view(out@) =~= rows_view(before).push(all[i as int]));
            assert(all.take(i + 1) =~= all.take(i as int).push(all[i as int]));
        }
        i = i + 1;
    }
    proof {
        assert(all.take(all.len() as int) =~= all);
    }
    out
}

/// Whether a pattern matches bytes: `*` stands for any bytes, `?` for one, and
/// any other byte for itself.
pub open spec fn matches_glob(p: Seq<u8>, n: Seq<u8>) -> bool
    decreases p.len() + n.len(),
{
    if p.len() == 0 {
        n.len() == 0
    } else if p[0] == 42 {
        matches_glob(p.skip(1), n) || (n.len() > 0 && matches_glob(p, n.skip(1)))
    } else {
        n.len() > 0 && (p[0] == 63 || p[0] == n[0]) && matches_glob(p.skip(1), n.skip(1))
    }
}

fn glob_bytes(p: &[u8], n: &[u8]) -> (r: bool)
    ensures
        r == matches_glob(p@, n@),
    decreases p@.len() + n@.len(),
{
    if p.len() == 0 {
        return n.len() == 0;
    }
    let rest = slice_subrange(p, 1, p.len());
    proof {
        assert(rest@ =~= p@.skip(1));
    }
    if p[0] == 42 {
        if glob_bytes(rest, n) {
            return true;
        }
        if n.len() == 0 {
            return false;
        }
        let tail = slice_subrange(n, 1, n.len());
        proof {
            assert(tail@ =~= n@.skip(1));
        }
        return glob_bytes(p, tail);
    }
    if n.len() == 0 || !(p[0] == 63 || p[0] == n[0]) {
        return false;
    }
    let tail = slice_subrange(n, 1, n.len());
    proof {
        assert(tail@ =~= n@.skip(1));
    }
    glob_bytes(rest, tail)
}

/// Whether a pattern matches a text.
pub open spec fn glob_fits(p: Seq<char>, n: Seq<char>) -> bool {
    matches_glob(vstd::utf8::encode_utf8(p), vstd::utf8::encode_utf8(n))
}

/// Tiny `*`/`?` glob matcher.
pub fn glob_match(pattern: &str, n: &str) -> (r: bool)
    ensures
        r == glob_fits(pattern@, n@),
{
    glob_bytes(pattern.as_bytes(), n.as_bytes())
}

/// Whether a row is asked for: by its active state, where states are given,
/// and by its name, where patterns are.
pub open spec fn is_listed(row: RowView, states: Seq<Seq<char>>, patterns: Seq<Seq<char>>) -> bool {
    &&& states.len() == 0 || states.contains(row.active_state)
    &&& patterns.len() == 0 || exists|i: int|
        0 <= i < patterns.len() && #[trigger] glob_fits(patterns[i], row.name)
}

fn listed(row: &UnitListEntry, states: &Vec<String>, patterns: &Vec<String>) -> (r: bool)
    ensures
        r == is_listed(row@, text::texts(states@), text::texts(patterns@)),
{
    let ghost ss = text::texts(states@);
    let ghost ps = text::texts(patterns@);
    if states.len() > 0 {
        let mut i: usize = 0;
        while i < states.len() && !same(states[i].as_str(), row.active_state.as_str())
            invariant
                i <= states.len(),
                ss == text::texts(states@),
                forall|j: int| 0 <= j < i ==> #[trigger] ss[j] != row@.active_state,
            decreases states.len() - i,
        {
            proof {
                assert(ss[i as int] == states@[i as int]@);
            }
            i = i + 1;
        }
        if i == states.len() {
            return false;
        }
        proof {
            assert(ss[i as int] == row@.active_state);
        }
    }
    if patterns.len() == 0 {
        return true;
    }
    let mut i: usize = 0;
    while i < patterns.len() && !glob_match(patterns[i].as_str(), row.name.as_str())
        invariant
            i <= patterns.len(),
            ps == text::texts(patterns@),
            forall|j: int| 0 <= j < i ==> !#[trigger] glob_fits(ps[j], row@.name),
        decreases patterns.len() - i,
    {
        proof {
            assert(ps[i as int] == patterns@[i as int]@);
        }
        i = i + 1;
    }
    proof {
        if i < patterns.len() {
            assert(glob_fits(ps[i as int], row@.name));
        }
    }
    i < patterns.len()
}

/// The rows that are asked for.
pub open spec fn listed_rows(
    rows: Seq<RowView>,
    states: Seq<Seq<char>>,
    patterns: Seq<Seq<char>>,
) -> Seq<RowView>
    decreases rows.len(),
{
    if rows.len() == 0 {
        seq![]
    } else if is_listed(rows.last(), states, patterns) {
        listed_rows(rows.drop_last(), states, patterns).push(rows.last())
    } else {
        listed_rows(rows.drop_last(), states, patterns)
    }
}

/// `ListUnitsByPatterns(states, patterns) -> Vec<UnitListEntry>`.
pub fn list_units_by_patterns(m: &Manager, states: &Vec<String>, patterns: &Vec<String>) -> (r: Vec<
    UnitListEntry,
>)
    ensures
        rows_view(r@) == listed_rows(all_rows(m@), text::texts(states@), text::texts(patterns@)),
{
    let ghost all = all_rows(m@);
    let ghost ss = text::texts(states@);
    let ghost ps = text::texts(patterns@);
    let mut out: Vec<UnitListEntry> = Vec::new();
    let mut i: usize = 0;
    proof {
        assert(rows_view(out@) =~= listed_rows(all.take(0), ss, ps));
    }
    while i < m.status.len()
        invariant
            i <= m.status.keys().len(),
            all == all_rows(m@),
            all.len() == m.status.keys().len(),
            ss == text::texts(states@),
            ps == text::texts(patterns@),
            rows_view(out@) == listed_rows(all.take(i as int), ss, ps),
        decreases m.status.keys().len() - i,
    {
        let row = list_entry(m.status.name_at(i), m.status.value_at(i));
        proof {
            assert(m@.status[i as int] == (
                m.status.keys()[i as int],
                m.status.values()[i as int]@,
            ));
            assert(all.take(i + 1).drop_last() =~= all.take(i as int));
            assert(all.take(i + 1).last() == row@);
        }
        if listed(&row, states, patterns) {
            let ghost before = out@;
            out.push(row);
            proof {
                assert(rows_view(out@) =~= rows_view(before).push(row@));
            }
        }
        i = i + 1;
    }
    proof {
        assert(all.take(all.len() as int) =~= all);
    }
    out
}

/// Without states and patterns all units are listed.
pub proof fn no_filter_lists_all(rows: Seq<RowView>)
    ensures
        listed_rows(rows, seq![], seq![]) == rows,
    decreases rows.len(),
{
    if rows.len() > 0 {
        no_filter_lists_all(rows.drop_last());
        assert(rows.drop_last().push(rows.last()) =~= rows);
    } else {
        assert(listed_rows(rows, seq![], seq![]) =~= rows);
    }
}

/// `*` matches everything.
pub proof fn star_matches_all(n: Seq<u8>)
    ensures
        matches_glob(seq![42u8], n),
    decreases n.len(),
{
    let p = seq![42u8];
    assert(p.skip(1) =~= seq![]);
    reveal_with_fuel(matches_glob, 2);
    if n.len() > 0 {
        star_matches_all(n.skip(1));
    }
}

/// A pattern without `*` and `?` matches itself alone.
pub proof fn plain_pattern_matches_itself(p: Seq<u8>, n: Seq<u8>)
    requires
        forall|i: int| 0 <= i < p.len() ==> #[trigger] p[i] != 42 && p[i] != 63,
    ensures
        matches_glob(p, n) == (p == n),
    decreases p.len(),
{
    if p.len() == 0 {
        assert((n.len() == 0) == (p =~= n));
    } else if n.len() > 0 {
        assert(p[0] != 42);
        let a = p.skip(1);
        let b = n.skip(1);
        assert forall|i: int| 0 <= i < a.len() implies #[trigger] a[i] != 42 && a[i] != 63 by {
            assert(a[i] == p[i + 1]);
        }
        plain_pattern_matches_itself(a, b);
        if p[0] == n[0] && a == b {
            assert(p =~= seq![p[0]] + a);
            assert(n =~= seq![n[0]] + b);
        }
    } else {
        assert(p[0] != 42);
    }
}

/// `GetUnit(name) -> ObjectPath` — the object path of an already-loaded unit.
pub fn get_unit(m: &Manager, s: &str) -> (r: Result<String, BusError>)
    ensures
        match name_argument(s@) {
            Err(e) => r matches Err(x) && x@ == e,
            Ok(n) => if name_map::found(m@.units, n) is Some {
                r matches Ok(p) && p@ == object_path::unit_path(n)
            } else {
                r matches Err(x) && x@ == BusErrorView::Failed(properties::not_loaded(n))
            },
        },
{
    match parse_name(s) {
        Err(e) => Err(e),
        Ok(n) => {
            if m.units.lookup(&n).is_some() {
                Ok(unit_object_path(&n))
            } else {
                let mut e = "unit not loaded: ".to_owned();
                e.append(n.filename().as_str());
                Err(BusError::Failed(e))
            }
        },
    }
}

/// `LoadUnit(name) -> ObjectPath`.
pub fn load_unit(s: &str) -> (r: Result<String, BusError>)
    ensures
        match name_argument(s@) {
            Err(e) => r matches Err(x) && x@ == e,
            Ok(n) => r matches Ok(p) && p@ == object_path::unit_path(n),
        },
{
    match parse_name(s) {
        Err(e) => Err(e),
        Ok(n) => Ok(unit_object_path(&n)),
    }
}

/// What to do with a unit that is to be reloaded or restarted.
#[derive(Debug, Clone, Copy, PartialEq, Eq, Structural)]
pub enum UnitAction {
    Reload,
    Restart,
    Nothing,
}

/// `ReloadOrRestartUnit` — reload if active, else restart.
pub fn reload_or_restart(m: &Manager, n: &UnitName) -> (r: UnitAction)
    ensures
        r == if manager::status_of(m@, n@).active is Active {
            UnitAction::Reload
        } else {
            UnitAction::Restart
        },
{
    if m.unit_status(n).active == ActiveState::Active {
        UnitAction::Reload
    } else {
        UnitAction::Restart
    }
}

/// `TryRestartUnit` — restart only if currently active.
pub fn try_restart(m: &Manager, n: &UnitName) -> (r: UnitAction)
    ensures
        r == if manager::status_of(m@, n@).active is Active {
            UnitAction::Restart
        } else {
            UnitAction::Nothing
        },
{
    if m.unit_status(n).active == ActiveState::Active {
        UnitAction::Restart
    } else {
        UnitAction::Nothing
    }
}

/// `NInstalledJobs` — total ever installed.
pub fn installed_jobs(m: &Manager) -> (r: u32)
    ensures
        r == if m@.next_job_id == 0 {
            0
        } else {
            (m@.next_job_id - 1) as u32
        },
{
    if m.next_job_id == 0 {
        0
    } else {
        m.next_job_id - 1
    }
}

} // verus!
