//! `[Unit]` dependency declarations.

use crate::unit::name::{NameView, UnitName};
use crate::unit::name_set;
use crate::unit::name_set::NameSet;
use vstd::prelude::*;

verus! {

/// All dependency relations declared in a unit's `[Unit]` section.
///
/// `After=`/`Before=` are pure ordering. `Wants=`/`Requires=`/`Requisite=`/
/// `BindsTo=`/`PartOf=`/`Upholds=` are pull relations of varying strictness.
/// `Conflicts=` is mutual exclusion. `On{Failure,Success}=` are propagation.
#[derive(Debug, PartialEq, Eq)]
pub struct UnitDeps {
    /// Order: this unit starts after these.
    pub after: NameSet,
    /// Order: this unit starts before these.
    pub before: NameSet,
    /// Soft pull: bring these up when this is brought up; no failure
    /// propagation.
    pub wants: NameSet,
    /// Hard pull: bring these up; if any fails, this fails.
    pub requires: NameSet,
    /// Like `Requires=` but immediate — the targets must already be active.
    pub requisite: NameSet,
    /// Mutual lifecycle: if any target fails or stops, this stops.
    pub binds_to: NameSet,
    /// Reverse `Requires=`: if this stops, the target stops.
    pub part_of: NameSet,
    /// Soft sticky pull: keep target up while this references it.
    pub upholds: NameSet,
    /// Conflict: starting this stops these.
    pub conflicts: NameSet,
    /// Activate these when this fails.
    pub on_failure: NameSet,
    /// Activate these when this succeeds (oneshot).
    pub on_success: NameSet,
    /// When this is reloaded, propagate reload to these.
    pub propagates_reload_to: NameSet,
    /// Receive reload propagation from these.
    pub reload_propagated_from: NameSet,
    /// When this stops, also stop these.
    pub propagates_stop_to: NameSet,
    /// Receive stop propagation from these.
    pub stop_propagated_from: NameSet,
    /// `JoinsNamespaceOf=` (Linux-only; we accept and ignore).
    pub joins_namespace_of: NameSet,
}

/// [`UnitDeps`] by their characters.
pub struct DepsView {
    pub after: Seq<NameView>,
    pub before: Seq<NameView>,
    pub wants: Seq<NameView>,
    pub requires: Seq<NameView>,
    pub requisite: Seq<NameView>,
    pub binds_to: Seq<NameView>,
    pub part_of: Seq<NameView>,
    pub upholds: Seq<NameView>,
    pub conflicts: Seq<NameView>,
    pub on_failure: Seq<NameView>,
    pub on_success: Seq<NameView>,
    pub propagates_reload_to: Seq<NameView>,
    pub reload_propagated_from: Seq<NameView>,
    pub propagates_stop_to: Seq<NameView>,
    pub stop_propagated_from: Seq<NameView>,
    pub joins_namespace_of: Seq<NameView>,
}

impl View for UnitDeps {
    type V = DepsView;

    open spec fn view(&self) -> DepsView {
        DepsView {
            after: self.after@,
            before: self.before@,
            wants: self.wants@,
            requires: self.requires@,
            requisite: self.requisite@,
            binds_to: self.binds_to@,
            part_of: self.part_of@,
            upholds: self.upholds@,
            conflicts: self.conflicts@,
            on_failure: self.on_failure@,
            on_success: self.on_success@,
            propagates_reload_to: self.propagates_reload_to@,
            reload_propagated_from: self.reload_propagated_from@,
            propagates_stop_to: self.propagates_stop_to@,
            stop_propagated_from: self.stop_propagated_from@,
            joins_namespace_of: self.joins_namespace_of@,
        }
    }
}

/// The relations of a unit that declares none.
pub open spec fn no_deps() -> DepsView {
    DepsView {
        after: seq![],
        before: seq![],
        wants: seq![],
        requires: seq![],
        requisite: seq![],
        binds_to: seq![],
        part_of: seq![],
        upholds: seq![],
        conflicts: seq![],
        on_failure: seq![],
        on_success: seq![],
        propagates_reload_to: seq![],
        reload_propagated_from: seq![],
        propagates_stop_to: seq![],
        stop_propagated_from: seq![],
        joins_namespace_of: seq![],
    }
}

impl Default for UnitDeps {
    fn default() -> (r: Self)
        ensures
            r@ == no_deps(),
    {
        let r = UnitDeps {
            after: NameSet::new(),
            before: NameSet::new(),
            wants: NameSet::new(),
            requires: NameSet::new(),
            requisite: NameSet::new(),
            binds_to: NameSet::new(),
            part_of: NameSet::new(),
            upholds: NameSet::new(),
            conflicts: NameSet::new(),
            on_failure: NameSet::new(),
            on_success: NameSet::new(),
            propagates_reload_to: NameSet::new(),
            reload_propagated_from: NameSet::new(),
            propagates_stop_to: NameSet::new(),
            stop_propagated_from: NameSet::new(),
            joins_namespace_of: NameSet::new(),
        };
        proof {
        }
        r
    }
}

/// All names that a unit refers to, relation by relation.
pub open spec fn all_deps(d: DepsView) -> Seq<NameView> {
    d.after + d.before + d.wants + d.requires + d.requisite + d.binds_to + d.part_of + d.upholds + d.conflicts + d.on_failure + d.on_success + d.propagates_reload_to + d.reload_propagated_from + d.propagates_stop_to + d.stop_propagated_from + d.joins_namespace_of
}

/// Appends the names of a set.
fn append_names(out: &mut Vec<UnitName>, s: &NameSet)
    ensures
        name_set::names_view(final(out)@) == name_set::names_view(old(out)@) + s@,
{
    let ghost before = out@;
    let mut more = s.names();
    let ghost added = more@;
    out.append(&mut more);
    proof {
        assert(name_set::names_view(out@) =~= name_set::names_view(before)
            + name_set::names_view(added));
    }
}

impl UnitDeps {
    /// All dep names referenced anywhere in this struct.
    pub fn all(&self) -> (r: Vec<UnitName>)
        ensures
            name_set::names_view(r@) == all_deps(self@),
    {
        let mut out: Vec<UnitName> = Vec::new();
        append_names(&mut out, &self.after);
        append_names(&mut out, &self.before);
        append_names(&mut out, &self.wants);
        append_names(&mut out, &self.requires);
        append_names(&mut out, &self.requisite);
        append_names(&mut out, &self.binds_to);
        append_names(&mut out, &self.part_of);
        append_names(&mut out, &self.upholds);
        append_names(&mut out, &self.conflicts);
        append_names(&mut out, &self.on_failure);
        append_names(&mut out, &self.on_success);
        append_names(&mut out, &self.propagates_reload_to);
        append_names(&mut out, &self.reload_propagated_from);
        append_names(&mut out, &self.propagates_stop_to);
        append_names(&mut out, &self.stop_propagated_from);
        append_names(&mut out, &self.joins_namespace_of);
        proof {
            assert(name_set::names_view(out@) =~= all_deps(self@));
        }
        out
    }
}

} // verus!
