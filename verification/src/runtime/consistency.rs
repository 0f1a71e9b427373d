//! What every operation of the manager keeps, and what a reload does to the
//! units as a whole.

use crate::deps::job::JobId;
use crate::runtime::manager;
use crate::runtime::manager::{EventView, ManagerView};
use crate::runtime::service;
use crate::runtime::service::RunnerView;
use crate::runtime::state::{ActiveState, StatusView};
use crate::unit::load::LoadedView;
use crate::unit::name::NameView;
use crate::unit::name_map;
use crate::unit::spec::TypeView;
use vstd::prelude::*;

verus! {

/// Whether the parts of a manager agree: no name has two entries, just the
/// loaded units have a status, and every service runner belongs to a loaded
/// unit.
pub open spec fn is_consistent(m: ManagerView) -> bool {
    &&& name_map::names_of(m.units).no_duplicates()
    &&& name_map::names_of(m.status).no_duplicates()
    &&& name_map::names_of(m.services).no_duplicates()
    &&& forall|n: NameView| #[trigger]
        name_map::names_of(m.units).contains(n) == name_map::names_of(m.status).contains(n)
    &&& forall|n: NameView| #[trigger]
        name_map::names_of(m.services).contains(n) ==> name_map::names_of(m.units).contains(n)
}

proof fn lemma_with_entry<T>(s: Seq<(NameView, T)>, n: NameView, v: T)
    requires
        name_map::names_of(s).no_duplicates(),
    ensures
        name_map::names_of(name_map::with_entry(s, n, v)).no_duplicates(),
        forall|x: NameView| #[trigger]
            name_map::names_of(name_map::with_entry(s, n, v)).contains(x) == (x == n
                || name_map::names_of(s).contains(x)),
        name_map::found(name_map::with_entry(s, n, v), n) == Some(v),
        forall|x: NameView|
            x != n ==> #[trigger] name_map::found(name_map::with_entry(s, n, v), x)
                == name_map::found(s, x),
{
    let a = name_map::names_of(s);
    let t = name_map::with_entry(s, n, v);
    let b = name_map::names_of(t);
    if a.contains(n) {
        assert(b =~= a);
        assert forall|x: NameView| x != n implies #[trigger] name_map::found(t, x)
            == name_map::found(s, x) by {
            if a.contains(x) {
                assert(a[a.index_of(x)] == x);
                assert(a[a.index_of(n)] == n);
            }
        }
    } else {
        assert(b =~= a.push(n));
        assert forall|x: NameView| #[trigger] b.contains(x) == (x == n || a.contains(x)) by {
            assert(b[a.len() as int] == n);
            if a.contains(x) {
                assert(b[a.index_of(x)] == x);
            }
            if b.contains(x) {
                let k = choose|k: int| 0 <= k < b.len() && b[k] == x;
                if k < a.len() {
                    assert(a[k] == x);
                }
            }
        }
        assert(b.contains(n));
        assert(b.index_of(n) == a.len());
        assert forall|x: NameView| x != n implies #[trigger] name_map::found(t, x)
            == name_map::found(s, x) by {
            if a.contains(x) {
                assert(b.contains(x));
                assert(b[a.index_of(x)] == x);
                assert(b.index_of(x) == a.index_of(x));
            }
        }
    }
}

proof fn lemma_without_entry<T>(s: Seq<(NameView, T)>, n: NameView)
    requires
        name_map::names_of(s).no_duplicates(),
    ensures
        name_map::names_of(name_map::without_entry(s, n)).no_duplicates(),
        forall|x: NameView| #[trigger]
            name_map::names_of(name_map::without_entry(s, n)).contains(x) == (x != n
                && name_map::names_of(s).contains(x)),
        forall|x: NameView|
            x != n ==> #[trigger] name_map::found(name_map::without_entry(s, n), x)
                == name_map::found(s, x),
{
    let a = name_map::names_of(s);
    let t = name_map::without_entry(s, n);
    let b = name_map::names_of(t);
    if a.contains(n) {
        let k = a.index_of(n);
        assert(a[k] == n);
        assert(b =~= a.remove(k));
        assert forall|x: NameView| #[trigger] b.contains(x) == (x != n && a.contains(x)) by {
            if b.contains(x) {
                let j = b.index_of(x);
                assert(b[j] == x);
                if j < k {
                    assert(a[j] == x);
                } else {
                    assert(a[j + 1] == x);
                }
            }
            if x != n && a.contains(x) {
                let j = a.index_of(x);
                assert(a[j] == x);
                if j < k {
                    assert(b[j] == x);
                } else {
                    assert(b[j - 1] == x);
                }
            }
        }
        assert forall|x: NameView| x != n implies #[trigger] name_map::found(t, x)
            == name_map::found(s, x) by {
            if a.contains(x) {
                let j = a.index_of(x);
                assert(a[j] == x);
                assert(b.contains(x));
                let i = b.index_of(x);
                assert(b[i] == x);
                if i < k {
                    assert(a[i] == x);
                } else {
                    assert(a[i + 1] == x);
                }
            }
        }
    }
}

proof fn lemma_marked(m: ManagerView, n: NameView, active: ActiveState, sub: Seq<char>)
    requires
        is_consistent(m),
    ensures
        is_consistent(manager::marked(m, n, active, sub)),
        name_map::found(m.status, n) is Some ==> name_map::found(
            manager::marked(m, n, active, sub).status,
            n,
        ) == Some(StatusView { active, sub, ..name_map::found(m.status, n)->Some_0 }),
{
    if let Some(st) = name_map::found(m.status, n) {
        lemma_with_entry(m.status, n, StatusView { active, sub, ..st });
    }
}

proof fn lemma_with_loaded(m: ManagerView, n: NameView, lu: LoadedView)
    requires
        is_consistent(m),
    ensures
        is_consistent(manager::with_loaded(m, n, lu)),
{
    lemma_with_entry(m.units, n, lu);
    lemma_with_entry(m.status, n, manager::fresh_status(n, lu.unit.description));
    if let TypeView::Service(svc) = lu.unit.kind {
        let v = RunnerView { unit: n, svc, run: service::idle() };
        lemma_with_entry(m.services, n, v);
    }
}

proof fn lemma_with_reloaded(m: ManagerView, n: NameView, lu: LoadedView)
    requires
        is_consistent(m),
    ensures
        is_consistent(manager::with_reloaded(m, n, lu)),
        forall|x: NameView| #[trigger]
            name_map::names_of(manager::with_reloaded(m, n, lu).units).contains(x) == (x == n
                || name_map::names_of(m.units).contains(x)),
        name_map::found(manager::with_reloaded(m, n, lu).units, n) == Some(lu),
        forall|x: NameView|
            x != n ==> #[trigger] name_map::found(manager::with_reloaded(m, n, lu).units, x)
                == name_map::found(m.units, x),
        name_map::found(manager::with_reloaded(m, n, lu).status, n) == Some(
            manager::reloaded_status(name_map::found(m.status, n), n, lu.unit.description),
        ),
        forall|x: NameView|
            x != n ==> #[trigger] name_map::found(manager::with_reloaded(m, n, lu).status, x)
                == name_map::found(m.status, x),
{
    lemma_with_entry(m.units, n, lu);
    lemma_without_entry(m.status, n);
    lemma_with_entry(
        name_map::without_entry(m.status, n),
        n,
        manager::reloaded_status(name_map::found(m.status, n), n, lu.unit.description),
    );
    if let TypeView::Service(svc) = lu.unit.kind {
        let v = RunnerView {
            unit: n,
            svc,
            run: manager::reloaded_run(name_map::found(m.services, n)),
        };
        lemma_with_entry(m.services, n, v);
    }
}

proof fn lemma_without_unit(m: ManagerView, n: NameView)
    requires
        is_consistent(m),
    ensures
        is_consistent(manager::without_unit(m, n)),
        forall|x: NameView| #[trigger]
            name_map::names_of(manager::without_unit(m, n).units).contains(x) == (x != n
                && name_map::names_of(m.units).contains(x)),
        forall|x: NameView|
            x != n ==> #[trigger] name_map::found(manager::without_unit(m, n).status, x)
                == name_map::found(m.status, x),
{
    lemma_without_entry(m.units, n);
    lemma_without_entry(m.status, n);
    lemma_without_entry(m.services, n);
}

proof fn lemma_without_units(m: ManagerView, ns: Seq<NameView>)
    requires
        is_consistent(m),
    ensures
        is_consistent(manager::without_units(m, ns)),
        forall|x: NameView| #[trigger]
            name_map::names_of(manager::without_units(m, ns).units).contains(x) == (!ns.contains(x)
                && name_map::names_of(m.units).contains(x)),
        forall|x: NameView|
            !ns.contains(x) ==> #[trigger] name_map::found(manager::without_units(m, ns).status, x)
                == name_map::found(m.status, x),
    decreases ns.len(),
{
    if ns.len() > 0 {
        let rest = ns.drop_last();
        lemma_without_units(m, rest);
        lemma_without_unit(manager::without_units(m, rest), ns.last());
        assert forall|x: NameView| #[trigger] ns.contains(x) == (x == ns.last() || rest.contains(x))
            by {
            assert(ns[ns.len() - 1] == ns.last());
            if rest.contains(x) {
                assert(ns[rest.index_of(x)] == x);
            }
            if ns.contains(x) {
                let k = ns.index_of(x);
                assert(ns[k] == x);
                if k < rest.len() {
                    assert(rest[k] == x);
                }
            }
        }
    }
}

proof fn lemma_names_last<T>(us: Seq<(NameView, T)>, x: NameView)
    requires
        us.len() > 0,
    ensures
        name_map::names_of(us).contains(x) == (x == us.last().0 || name_map::names_of(
            us.drop_last(),
        ).contains(x)),
{
    let a = name_map::names_of(us);
    let b = name_map::names_of(us.drop_last());
    assert(a[us.len() - 1] == us.last().0);
    if b.contains(x) {
        assert(a[b.index_of(x)] == x);
    }
    if a.contains(x) {
        let k = a.index_of(x);
        assert(a[k] == x);
        if k < b.len() {
            assert(b[k] == x);
        }
    }
}

proof fn lemma_with_all_reloaded(m: ManagerView, us: Seq<(NameView, LoadedView)>)
    requires
        is_consistent(m),
    ensures
        is_consistent(manager::with_all_reloaded(m, us)),
        forall|x: NameView| #[trigger]
            name_map::names_of(manager::with_all_reloaded(m, us).units).contains(x) == (
            name_map::names_of(us).contains(x) || name_map::names_of(m.units).contains(x)),
    decreases us.len(),
{
    if us.len() > 0 {
        lemma_with_all_reloaded(m, us.drop_last());
        let before = manager::with_all_reloaded(m, us.drop_last());
        lemma_with_reloaded(before, us.last().0, us.last().1);
        assert forall|x: NameView| #[trigger]
            name_map::names_of(manager::with_all_reloaded(m, us).units).contains(x) == (
        name_map::names_of(us).contains(x) || name_map::names_of(m.units).contains(x)) by {
            lemma_names_last(us, x);
        }
    }
}

/// What a reload with distinct names leaves of a unit that it found.
proof fn lemma_reloaded_entry(m: ManagerView, us: Seq<(NameView, LoadedView)>, k: int)
    requires
        is_consistent(m),
        name_map::names_of(us).no_duplicates(),
        0 <= k < us.len(),
    ensures
        name_map::found(manager::with_all_reloaded(m, us).units, us[k].0) == Some(us[k].1),
        name_map::found(manager::with_all_reloaded(m, us).status, us[k].0) == Some(
            manager::reloaded_status(
                name_map::found(m.status, us[k].0),
                us[k].0,
                us[k].1.unit.description,
            ),
        ),
    decreases us.len(),
{
    let rest = us.drop_last();
    let before = manager::with_all_reloaded(m, rest);
    let a = name_map::names_of(us);
    lemma_with_all_reloaded(m, rest);
    lemma_with_reloaded(before, us.last().0, us.last().1);
    let b = name_map::names_of(rest);
    assert(b =~= a.drop_last());
    assert(b.no_duplicates()) by {
        assert forall|i: int, j: int| 0 <= i < b.len() && 0 <= j < b.len() && i != j implies b[i]
            != b[j] by {
            assert(a[i] == b[i] && a[j] == b[j]);
        }
    }
    if k < us.len() - 1 {
        lemma_reloaded_entry(m, rest, k);
        assert(rest[k] == us[k]);
        assert(a[k] != a[us.len() - 1]);
    } else {
        assert forall|i: int| 0 <= i < rest.len() implies (#[trigger] rest[i]).0 != us[k].0 by {
            assert(a[i] == rest[i].0 && a[k] == us[k].0);
        }
        lemma_untouched(m, rest, us[k].0);
    }
}

/// A reload leaves the status of a unit alone that it did not find.
proof fn lemma_untouched(m: ManagerView, us: Seq<(NameView, LoadedView)>, n: NameView)
    requires
        is_consistent(m),
        forall|i: int| 0 <= i < us.len() ==> (#[trigger] us[i]).0 != n,
    ensures
        name_map::found(manager::with_all_reloaded(m, us).status, n) == name_map::found(
            m.status,
            n,
        ),
    decreases us.len(),
{
    if us.len() > 0 {
        let rest = us.drop_last();
        assert forall|i: int| 0 <= i < rest.len() implies (#[trigger] rest[i]).0 != n by {
            assert(rest[i] == us[i]);
        }
        lemma_untouched(m, rest, n);
        lemma_with_all_reloaded(m, rest);
        lemma_with_reloaded(
            manager::with_all_reloaded(m, rest),
            us.last().0,
            us.last().1,
        );
        assert(us[us.len() - 1].0 != n);
    }
}

proof fn lemma_missing(s: Seq<NameView>, kept: Seq<NameView>, n: NameView)
    ensures
        manager::missing(s, kept).contains(n) == (s.contains(n) && !kept.contains(n)),
    decreases s.len(),
{
    if s.len() > 0 {
        let rest = s.drop_last();
        let r = manager::missing(rest, kept);
        lemma_missing(rest, kept, n);
        assert(s[s.len() - 1] == s.last());
        if rest.contains(n) {
            assert(s[rest.index_of(n)] == n);
        }
        if s.contains(n) {
            let k = s.index_of(n);
            assert(s[k] == n);
            if k < rest.len() {
                assert(rest[k] == n);
            }
        }
        let p = r.push(s.last());
        assert(p[r.len() as int] == s.last());
        if r.contains(n) {
            assert(p[r.index_of(n)] == n);
        }
        if p.contains(n) {
            let k = p.index_of(n);
            assert(p[k] == n);
            if k < r.len() {
                assert(r[k] == n);
            }
        }
    }
}

// ---------------------------------------------------------------------
// Laws
// ---------------------------------------------------------------------

/// A new manager is consistent.
pub proof fn new_manager_is_consistent()
    ensures
        is_consistent(manager::empty_manager()),
{
    let m = manager::empty_manager();
    assert(name_map::names_of(m.units) =~= seq![]);
    assert(name_map::names_of(m.status) =~= seq![]);
    assert(name_map::names_of(m.services) =~= seq![]);
}

/// Every operation keeps a manager consistent: loading a unit, changing a
/// state, queueing and starting a job, clearing a failed state, and a reload.
pub proof fn operations_keep_consistency(
    m: ManagerView,
    n: NameView,
    lu: LoadedView,
    active: ActiveState,
    sub: Seq<char>,
    id: JobId,
    events: Seq<EventView>,
    us: Seq<(NameView, LoadedView)>,
)
    requires
        is_consistent(m),
    ensures
        is_consistent(manager::with_loaded(m, n, lu)),
        is_consistent(manager::marked(m, n, active, sub)),
        is_consistent(manager::with_job(m)),
        is_consistent(manager::run_start(m, n, id, events).0),
        is_consistent(manager::reset(m, n)),
        is_consistent(manager::reloaded(m, us)),
{
    lemma_with_loaded(m, n, lu);
    lemma_marked(m, n, active, sub);
    lemma_marked(m, n, ActiveState::Activating, "start"@);
    lemma_marked(m, n, ActiveState::Inactive, "dead"@);
    lemma_marked(m, n, ActiveState::Active, manager::started_sub(n.kind));
    let gone = manager::missing(name_map::names_of(m.units), name_map::names_of(us));
    lemma_without_units(m, gone);
    lemma_with_all_reloaded(manager::without_units(m, gone), us);
}

/// After a reload just the units that it found are loaded.
pub proof fn reload_leaves_just_what_was_found(
    m: ManagerView,
    us: Seq<(NameView, LoadedView)>,
    n: NameView,
)
    requires
        is_consistent(m),
    ensures
        name_map::names_of(manager::reloaded(m, us).units).contains(n) == name_map::names_of(
            us,
        ).contains(n),
{
    let gone = manager::missing(name_map::names_of(m.units), name_map::names_of(us));
    lemma_without_units(m, gone);
    lemma_with_all_reloaded(manager::without_units(m, gone), us);
    lemma_missing(name_map::names_of(m.units), name_map::names_of(us), n);
}

/// A unit that a reload finds again has its new definition, and keeps its
/// active state and its sub-state.
pub proof fn reload_keeps_states(m: ManagerView, us: Seq<(NameView, LoadedView)>, k: int)
    requires
        is_consistent(m),
        name_map::names_of(us).no_duplicates(),
        0 <= k < us.len(),
        name_map::names_of(m.units).contains(us[k].0),
    ensures
        name_map::found(manager::reloaded(m, us).units, us[k].0) == Some(us[k].1),
        manager::status_of(manager::reloaded(m, us), us[k].0).active == manager::status_of(
            m,
            us[k].0,
        ).active,
        manager::status_of(manager::reloaded(m, us), us[k].0).sub == manager::status_of(
            m,
            us[k].0,
        ).sub,
{
    let gone = manager::missing(name_map::names_of(m.units), name_map::names_of(us));
    assert(name_map::names_of(us)[k] == us[k].0);
    lemma_missing(name_map::names_of(m.units), name_map::names_of(us), us[k].0);
    lemma_without_units(m, gone);
    lemma_reloaded_entry(manager::without_units(m, gone), us, k);
    assert(name_map::names_of(m.status).contains(us[k].0));
}

/// A unit of a loaded manager is in the state that it was last put in.
pub proof fn state_reads_back(m: ManagerView, n: NameView, active: ActiveState, sub: Seq<char>)
    requires
        is_consistent(m),
        name_map::names_of(m.units).contains(n),
    ensures
        manager::status_of(manager::marked(m, n, active, sub), n).active == active,
        manager::status_of(manager::marked(m, n, active, sub), n).sub == sub,
{
    assert(name_map::names_of(m.status).contains(n));
    lemma_marked(m, n, active, sub);
}

} // verus!
