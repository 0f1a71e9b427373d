//! The edges of the graph, told from what the units declare.

use crate::deps::graph;
use crate::deps::graph::{DepEdge, EdgeView, GraphView};
use crate::unit::name::NameView;
use crate::unit::name_map;
use crate::unit::spec::{TypeView, UnitView};
use vstd::prelude::*;

verus! {

/// Whether a timer, a path unit or a socket starts the other unit.
pub open spec fn starts(u: UnitView, t: NameView) -> bool {
    match u.kind {
        TypeView::Timer(x) => x.unit == Some(t),
        TypeView::Path(x) => x.unit == Some(t),
        TypeView::Socket(x) => x.service == Some(t),
        _ => false,
    }
}

/// Whether a unit declares a relation to another.
pub open spec fn declares(u: UnitView, kind: DepEdge, t: NameView) -> bool {
    match kind {
        DepEdge::Wants => u.deps.wants.contains(t) || starts(u, t),
        DepEdge::Requires => u.deps.requires.contains(t),
        DepEdge::Requisite => u.deps.requisite.contains(t),
        DepEdge::BindsTo => u.deps.binds_to.contains(t),
        DepEdge::PartOf => u.deps.part_of.contains(t),
        DepEdge::Upholds => u.deps.upholds.contains(t),
        DepEdge::After => u.deps.after.contains(t),
        DepEdge::Before => u.deps.before.contains(t) || starts(u, t),
        DepEdge::Conflicts => u.deps.conflicts.contains(t),
        DepEdge::OnFailure => u.deps.on_failure.contains(t),
        DepEdge::OnSuccess => u.deps.on_success.contains(t),
        DepEdge::PropagatesReloadTo => u.deps.propagates_reload_to.contains(t),
        DepEdge::PropagatesStopTo => u.deps.propagates_stop_to.contains(t),
    }
}

/// Whether a unit asks in its `[Install]` section for a relation of another to it.
pub open spec fn asks_for(u: UnitView, kind: DepEdge, s: NameView) -> bool {
    u.default_dependencies && match kind {
        DepEdge::Wants => u.install.wanted_by.contains(s),
        DepEdge::Requires => u.install.required_by.contains(s),
        DepEdge::Upholds => u.install.upheld_by.contains(s),
        _ => false,
    }
}

/// Whether a unit makes the edge.
pub open spec fn makes(n: NameView, u: UnitView, e: EdgeView) -> bool {
    (e.from == n && declares(u, e.kind, e.to)) || (e.to == n && asks_for(u, e.kind, e.from))
}

proof fn lemma_both(a: Seq<EdgeView>, b: Seq<EdgeView>, e: EdgeView)
    ensures
        (a + b).contains(e) <==> a.contains(e) || b.contains(e),
{
    if a.contains(e) {
        let i = choose|i: int| 0 <= i < a.len() && a[i] == e;
        assert((a + b)[i] == e);
    }
    if b.contains(e) {
        let i = choose|i: int| 0 <= i < b.len() && b[i] == e;
        assert((a + b)[a.len() + i] == e);
    }
    if (a + b).contains(e) {
        let i = choose|i: int| 0 <= i < (a + b).len() && (a + b)[i] == e;
        if i < a.len() {
            assert(a[i] == e);
        } else {
            assert(b[i - a.len()] == e);
        }
    }
}

proof fn lemma_edges_to(n: NameView, kind: DepEdge, ts: Seq<NameView>, e: EdgeView)
    ensures
        graph::edges_to(n, kind, ts).contains(e) <==> e.from == n && e.kind == kind && ts.contains(
            e.to,
        ),
{
    let s = graph::edges_to(n, kind, ts);
    if s.contains(e) {
        let i = choose|i: int| 0 <= i < s.len() && s[i] == e;
        assert(ts[i] == e.to);
    }
    if e.from == n && e.kind == kind && ts.contains(e.to) {
        let i = choose|i: int| 0 <= i < ts.len() && ts[i] == e.to;
        assert(s[i] == e);
    }
}

proof fn lemma_edges_from(ss: Seq<NameView>, kind: DepEdge, n: NameView, e: EdgeView)
    ensures
        graph::edges_from(ss, kind, n).contains(e) <==> e.to == n && e.kind == kind && ss.contains(
            e.from,
        ),
{
    let s = graph::edges_from(ss, kind, n);
    if s.contains(e) {
        let i = choose|i: int| 0 <= i < s.len() && s[i] == e;
        assert(ss[i] == e.from);
    }
    if e.to == n && e.kind == kind && ss.contains(e.from) {
        let i = choose|i: int| 0 <= i < ss.len() && ss[i] == e.from;
        assert(s[i] == e);
    }
}

proof fn lemma_declared(n: NameView, u: UnitView, e: EdgeView)
    ensures
        graph::declared_edges(n, u.deps).contains(e) || graph::implicit_edges(n, u.kind).contains(e)
            <==> e.from == n && declares(u, e.kind, e.to),
{
    let d = u.deps;
    let s0 = graph::edges_to(n, DepEdge::Wants, d.wants);
    lemma_edges_to(n, DepEdge::Wants, d.wants, e);
    let s1 = graph::edges_to(n, DepEdge::Requires, d.requires);
    lemma_edges_to(n, DepEdge::Requires, d.requires, e);
    let s2 = graph::edges_to(n, DepEdge::Requisite, d.requisite);
    lemma_edges_to(n, DepEdge::Requisite, d.requisite, e);
    let s3 = graph::edges_to(n, DepEdge::BindsTo, d.binds_to);
    lemma_edges_to(n, DepEdge::BindsTo, d.binds_to, e);
    let s4 = graph::edges_to(n, DepEdge::PartOf, d.part_of);
    lemma_edges_to(n, DepEdge::PartOf, d.part_of, e);
    let s5 = graph::edges_to(n, DepEdge::Upholds, d.upholds);
    lemma_edges_to(n, DepEdge::Upholds, d.upholds, e);
    let s6 = graph::edges_to(n, DepEdge::Conflicts, d.conflicts);
    lemma_edges_to(n, DepEdge::Conflicts, d.conflicts, e);
    let s7 = graph::edges_to(n, DepEdge::OnFailure, d.on_failure);
    lemma_edges_to(n, DepEdge::OnFailure, d.on_failure, e);
    let s8 = graph::edges_to(n, DepEdge::OnSuccess, d.on_success);
    lemma_edges_to(n, DepEdge::OnSuccess, d.on_success, e);
    let s9 = graph::edges_to(n, DepEdge::PropagatesReloadTo, d.propagates_reload_to);
    lemma_edges_to(n, DepEdge::PropagatesReloadTo, d.propagates_reload_to, e);
    let s10 = graph::edges_to(n, DepEdge::PropagatesStopTo, d.propagates_stop_to);
    lemma_edges_to(n, DepEdge::PropagatesStopTo, d.propagates_stop_to, e);
    let s11 = graph::edges_to(n, DepEdge::After, d.after);
    lemma_edges_to(n, DepEdge::After, d.after, e);
    let s12 = graph::edges_to(n, DepEdge::Before, d.before);
    lemma_edges_to(n, DepEdge::Before, d.before, e);
    let t1 = s0 + s1;
    lemma_both(s0, s1, e);
    let t2 = t1 + s2;
    lemma_both(t1, s2, e);
    let t3 = t2 + s3;
    lemma_both(t2, s3, e);
    let t4 = t3 + s4;
    lemma_both(t3, s4, e);
    let t5 = t4 + s5;
    lemma_both(t4, s5, e);
    let t6 = t5 + s6;
    lemma_both(t5, s6, e);
    let t7 = t6 + s7;
    lemma_both(t6, s7, e);
    let t8 = t7 + s8;
    lemma_both(t7, s8, e);
    let t9 = t8 + s9;
    lemma_both(t8, s9, e);
    let t10 = t9 + s10;
    lemma_both(t9, s10, e);
    let t11 = t10 + s11;
    lemma_both(t10, s11, e);
    let t12 = t11 + s12;
    lemma_both(t11, s12, e);
    assert(graph::declared_edges(n, d) == t12);
    match graph::activated_unit(u.kind) {
        Some(t) => {
            let s = graph::implicit_edges(n, u.kind);
            assert(s[0] == EdgeView { from: n, kind: DepEdge::Wants, to: t });
            assert(s[1] == EdgeView { from: n, kind: DepEdge::Before, to: t });
        },
        None => {},
    }
}

proof fn lemma_installed(n: NameView, u: UnitView, e: EdgeView)
    ensures
        graph::install_edges(n, u.install, u.default_dependencies).contains(e) <==> e.to == n
            && asks_for(u, e.kind, e.from),
{
    let i = u.install;
    let a = graph::edges_from(i.wanted_by, DepEdge::Wants, n);
    let b = graph::edges_from(i.required_by, DepEdge::Requires, n);
    let c = graph::edges_from(i.upheld_by, DepEdge::Upholds, n);
    lemma_edges_from(i.wanted_by, DepEdge::Wants, n, e);
    lemma_edges_from(i.required_by, DepEdge::Requires, n, e);
    lemma_edges_from(i.upheld_by, DepEdge::Upholds, n, e);
    lemma_both(a, b, e);
    lemma_both(a + b, c, e);
}

proof fn lemma_with_edges(g: GraphView, es: Seq<EdgeView>, e: EdgeView)
    ensures
        graph::with_edges(g, es).edges.contains(e) <==> g.edges.contains(e) || es.contains(e),
        graph::with_edges(g, es).exempt == g.exempt,
    decreases es.len(),
{
    if es.len() > 0 {
        let before = es.drop_last();
        lemma_with_edges(g, before, e);
        let h = graph::with_edges(g, before);
        let x = es.last();
        assert(es =~= before + seq![x]);
        lemma_both(before, seq![x], e);
        assert(seq![x][0] == x);
        lemma_both(h.edges, seq![x], e);
        assert(h.edges.push(x) =~= h.edges + seq![x]);
    }
}

proof fn lemma_with_unit(g: GraphView, n: NameView, u: UnitView, e: EdgeView)
    ensures
        graph::with_unit(g, n, u).edges.contains(e) <==> g.edges.contains(e) || makes(n, u, e),
        graph::with_unit(g, n, u).exempt == if u.ignore_on_isolate {
            name_map::with_name(g.exempt, n)
        } else {
            g.exempt
        },
{
    let a = graph::declared_edges(n, u.deps);
    let b = graph::install_edges(n, u.install, u.default_dependencies);
    let c = graph::implicit_edges(n, u.kind);
    let marked = if u.ignore_on_isolate {
        GraphView { exempt: name_map::with_name(g.exempt, n), ..g }
    } else {
        g
    };
    lemma_with_edges(marked, a, e);
    lemma_with_edges(graph::with_edges(marked, a), b, e);
    lemma_with_edges(graph::with_edges(graph::with_edges(marked, a), b), c, e);
    lemma_declared(n, u, e);
    lemma_installed(n, u, e);
}

/// An edge is in the graph just where one of its two units makes it: the first
/// declares the relation (a timer, a path unit and a socket want the unit that they
/// start, and come before it), or the second asks for it in its `[Install]` section
/// and keeps its default dependencies.
pub proof fn edges_are_those_declared(names: Seq<NameView>, units: Seq<UnitView>, e: EdgeView)
    requires
        units.len() <= names.len(),
    ensures
        graph::graph_of(names, units).edges.contains(e) <==> exists|i: int|
            0 <= i < units.len() && #[trigger] makes(names[i], units[i], e),
    decreases units.len(),
{
    if units.len() > 0 {
        let before = units.drop_last();
        let k = units.len() - 1;
        edges_are_those_declared(names, before, e);
        lemma_with_unit(graph::graph_of(names, before), names[k], units[k], e);
        if graph::graph_of(names, before).edges.contains(e) {
            let i = choose|i: int| 0 <= i < before.len() && #[trigger] makes(names[i], before[i], e);
            assert(makes(names[i], units[i], e));
        }
        if exists|i: int| 0 <= i < units.len() && #[trigger] makes(names[i], units[i], e) {
            let i = choose|i: int| 0 <= i < units.len() && #[trigger] makes(names[i], units[i], e);
            if i < k {
                assert(makes(names[i], before[i], e));
            }
        }
    }
}

/// The units that isolating spares by their own wish are just those that set
/// `IgnoreOnIsolate=`.
pub proof fn exempt_units_are_those_that_ask(
    names: Seq<NameView>,
    units: Seq<UnitView>,
    n: NameView,
)
    requires
        units.len() <= names.len(),
    ensures
        graph::graph_of(names, units).exempt.contains(n) <==> exists|i: int|
            0 <= i < units.len() && #[trigger] names[i] == n && units[i].ignore_on_isolate,
    decreases units.len(),
{
    if units.len() > 0 {
        let before = units.drop_last();
        let k = units.len() - 1;
        let g = graph::graph_of(names, before);
        exempt_units_are_those_that_ask(names, before, n);
        lemma_with_unit(
            g,
            names[k],
            units[k],
            EdgeView { from: n, kind: DepEdge::Wants, to: n },
        );
        let more = g.exempt.push(names[k]);
        assert(more[g.exempt.len() as int] == names[k]);
        if g.exempt.contains(n) {
            let j = choose|j: int| 0 <= j < g.exempt.len() && g.exempt[j] == n;
            assert(more[j] == n);
            let i = choose|i: int|
                0 <= i < before.len() && #[trigger] names[i] == n && before[i].ignore_on_isolate;
            assert(units[i].ignore_on_isolate);
        }
        if exists|i: int|
            0 <= i < units.len() && #[trigger] names[i] == n && units[i].ignore_on_isolate {
            let i = choose|i: int|
                0 <= i < units.len() && #[trigger] names[i] == n && units[i].ignore_on_isolate;
            if i < k {
                assert(before[i].ignore_on_isolate);
            }
        }
    }
}

} // verus!
