//! What `org.freedesktop.systemd1.Unit` answers: one property of a unit each.

use crate::runtime::manager::{Manager, ManagerView};
use crate::text;
use crate::unit::deps::{DepsView, UnitDeps};
use crate::unit::install::{Install, InstallView};
use crate::unit::name;
use crate::unit::name::{NameView, UnitName};
use crate::unit::name_map;
use crate::unit::name_set::NameSet;
use crate::unit::spec::{TypeView, UnitTypeData};
use vstd::prelude::*;

verus! {

/// The texts of some names.
pub open spec fn name_texts(ns: Seq<NameView>) -> Seq<Seq<char>> {
    ns.map_values(|n: NameView| name::name_text(n))
}

/// The texts of some names.
pub fn names_to_strings(set: &NameSet) -> (r: Vec<String>)
    ensures
        text::texts(r@) == name_texts(set@),
{
    let ghost all = name_texts(set@);
    let mut out: Vec<String> = Vec::new();
    let mut i: usize = 0;
    proof {
        assert(text::texts(out@) =~= all.take(0));
    }
    while i < set.len()
        invariant
            i <= set@.len(),
            all == name_texts(set@),
            text::texts(out@) == all.take(i as int),
        decreases set@.len() - i,
    {
        let ghost before = out@;
        out.push(set.get(i).filename());
        proof {
            assert(text::texts(out@) =~= text::texts(before).push(all[i as int]));
            assert(all.take(i + 1) =~= all.take(i as int).push(all[i as int]));
        }
        i = i + 1;
    }
    proof {
        assert(all.take(all.len() as int) =~= all);
    }
    out
}

/// A property of a unit that lists names.
#[derive(Debug, Clone, Copy, PartialEq, Eq, Structural)]
pub enum Relation {
    Requires,
    Wants,
    BindsTo,
    Conflicts,
    Before,
    After,
    RequiredBy,
    WantedBy,
}

/// The names of a relation.
pub open spec fn related(d: DepsView, i: InstallView, r: Relation) -> Seq<NameView> {
    match r {
        Relation::Requires => d.requires,
        Relation::Wants => d.wants,
        Relation::BindsTo => d.binds_to,
        Relation::Conflicts => d.conflicts,
        Relation::Before => d.before,
        Relation::After => d.after,
        Relation::RequiredBy => i.required_by,
        Relation::WantedBy => i.wanted_by,
    }
}

fn related_names<'a>(d: &'a UnitDeps, i: &'a Install, r: Relation) -> (s: &'a NameSet)
    ensures
        s@ == related(d@, i@, r),
{
    match r {
        Relation::Requires => &d.requires,
        Relation::Wants => &d.wants,
        Relation::BindsTo => &d.binds_to,
        Relation::Conflicts => &d.conflicts,
        Relation::Before => &d.before,
        Relation::After => &d.after,
        Relation::RequiredBy => &i.required_by,
        Relation::WantedBy => &i.wanted_by,
    }
}

/// `Requires`, `Wants` and so on; empty for a unit that is not loaded.
pub fn relation(m: &Manager, n: &UnitName, rel: Relation) -> (r: Vec<String>)
    ensures
        text::texts(r@) == match name_map::found(m@.units, n@) {
            Some(lu) => name_texts(related(lu.unit.deps, lu.unit.install, rel)),
            None => seq![],
        },
{
    match m.units.lookup(n) {
        Some(lu) => names_to_strings(related_names(&lu.unit.deps, &lu.unit.install, rel)),
        None => {
            let out: Vec<String> = Vec::new();
            proof {
                assert(text::texts(out@) =~= seq![]);
            }
            out
        },
    }
}

/// `Names` — primary name plus aliases declared in `[Install]`.
pub fn names(m: &Manager, n: &UnitName) -> (r: Vec<String>)
    ensures
        text::texts(r@) == seq![name::name_text(n@)] + match name_map::found(m@.units, n@) {
            Some(lu) => name_texts(lu.unit.install.alias),
            None => seq![],
        },
{
    let mut out: Vec<String> = Vec::new();
    out.push(n.filename());
    proof {
        assert(text::texts(out@) =~= seq![name::name_text(n@)]);
    }
    if let Some(lu) = m.units.lookup(n) {
        let mut more = names_to_strings(&lu.unit.install.alias);
        let ghost first = out@;
        let ghost rest = more@;
        out.append(&mut more);
        proof {
            assert(text::texts(out@) =~= text::texts(first) + text::texts(rest));
        }
    }
    proof {
        assert(text::texts(out@) =~= seq![name::name_text(n@)] + match name_map::found(
            m@.units,
            n@,
        ) {
            Some(lu) => name_texts(lu.unit.install.alias),
            None => seq![],
        });
    }
    out
}

/// `CanStart`.
pub fn can_start(m: &Manager, n: &UnitName) -> (r: bool)
    ensures
        r == match name_map::found(m@.units, n@) {
            Some(lu) => !lu.unit.refuse_manual_start,
            None => true,
        },
{
    match m.units.lookup(n) {
        Some(lu) => !lu.unit.refuse_manual_start,
        None => true,
    }
}

/// `CanStop`.
pub fn can_stop(m: &Manager, n: &UnitName) -> (r: bool)
    ensures
        r == match name_map::found(m@.units, n@) {
            Some(lu) => !lu.unit.refuse_manual_stop,
            None => true,
        },
{
    match m.units.lookup(n) {
        Some(lu) => !lu.unit.refuse_manual_stop,
        None => true,
    }
}

/// Whether a unit declares `ExecReload=`.
pub open spec fn reloads(m: ManagerView, n: NameView) -> bool {
    match name_map::found(m.units, n) {
        Some(lu) => match lu.unit.kind {
            TypeView::Service(s) => s.exec_reload.len() > 0,
            _ => false,
        },
        None => false,
    }
}

/// `CanReload` — true iff the unit declares `ExecReload=`.
pub fn can_reload(m: &Manager, n: &UnitName) -> (r: bool)
    ensures
        r == reloads(m@, n@),
{
    match m.units.lookup(n) {
        Some(lu) => match &lu.unit.kind {
            UnitTypeData::Service(s) => s.exec_reload.len() > 0,
            _ => false,
        },
        None => false,
    }
}

} // verus!
