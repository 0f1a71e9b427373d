//! The dependency graph.
//!
//! [`DepGraph`] is a typed directed multigraph keyed by [`UnitName`]. Every
//! source unit has a list of `(DepEdge, target)` pairs. Some declarations
//! imply an edge in the reverse direction (e.g. `WantedBy=foo` on unit `bar`
//! means "`foo` Wants `bar`"); those are materialised here so consumers don't
//! have to reason about implicit reversal.
//!
//! Construction is purely a function of the unit set passed in: there is no
//! global state and no I/O.

use crate::unit::deps::DepsView;
use crate::unit::install::InstallView;
use crate::unit::name::{NameView, UnitName};
use crate::unit::name_map;
use crate::unit::name_map::{NameMap, NameTable};
use crate::unit::name_set::NameSet;
use crate::unit::spec::{TypeView, Unit, UnitTypeData, UnitView};
use vstd::prelude::*;

verus! {

/// Edge kind in the dependency graph.
#[derive(Debug, Clone, Copy, PartialEq, Eq, Hash, PartialOrd, Ord, Structural)]
pub enum DepEdge {
    /// `Wants=` — soft pull. Failure of target does not fail source.
    Wants,
    /// `Requires=` — hard pull. Failure of target fails source.
    Requires,
    /// `Requisite=` — target must already be active.
    Requisite,
    /// `BindsTo=` — mutual lifecycle (Requires + reverse stop on target loss).
    BindsTo,
    /// `PartOf=` — reverse `Requires`: stopping target stops source.
    PartOf,
    /// `Upholds=` — soft sticky pull.
    Upholds,
    /// `After=` — order only; source starts after target.
    After,
    /// `Before=` — order only; source starts before target.
    Before,
    /// `Conflicts=` — mutual exclusion: starting source stops target.
    Conflicts,
    /// `OnFailure=` — start target when source fails.
    OnFailure,
    /// `OnSuccess=` — start target when source succeeds (oneshot).
    OnSuccess,
    /// `PropagatesReloadTo=` — reload of source propagates to target.
    PropagatesReloadTo,
    /// `PropagatesStopTo=` — stop of source propagates to target.
    PropagatesStopTo,
}

impl DepEdge {
    /// True if this edge is purely about ordering, not about pulling units in.
    pub fn is_ordering(self) -> (r: bool)
        ensures
            r == (self is After || self is Before),
    {
        matches!(self, DepEdge::After | DepEdge::Before)
    }
}

// ---------------------------------------------------------------------
// The model
// ---------------------------------------------------------------------

/// One edge: what it says, and of which two units.
pub struct EdgeView {
    pub from: NameView,
    pub kind: DepEdge,
    pub to: NameView,
}

/// A graph: its names, its distinct edges and the names that isolating leaves
/// alone, each in the order in which they were added.
#[verifier::ext_equal]
pub struct GraphView {
    pub nodes: Seq<NameView>,
    pub edges: Seq<EdgeView>,
    pub exempt: Seq<NameView>,
}

/// The edges that leave a unit.
pub open spec fn targets(edges: Seq<EdgeView>, n: NameView) -> Seq<(DepEdge, NameView)>
    decreases edges.len(),
{
    if edges.len() == 0 {
        seq![]
    } else if edges.last().from == n {
        targets(edges.drop_last(), n).push((edges.last().kind, edges.last().to))
    } else {
        targets(edges.drop_last(), n)
    }
}

/// The edges that enter a unit, each with the kind declared on its source.
pub open spec fn sources(edges: Seq<EdgeView>, n: NameView) -> Seq<(DepEdge, NameView)>
    decreases edges.len(),
{
    if edges.len() == 0 {
        seq![]
    } else if edges.last().to == n {
        sources(edges.drop_last(), n).push((edges.last().kind, edges.last().from))
    } else {
        sources(edges.drop_last(), n)
    }
}

/// The graph without names.
pub open spec fn no_graph() -> GraphView {
    GraphView { nodes: seq![], edges: seq![], exempt: seq![] }
}

/// A graph with one more edge, unless it is there.
pub open spec fn with_edge(g: GraphView, e: EdgeView) -> GraphView {
    GraphView {
        nodes: name_map::with_name(name_map::with_name(g.nodes, e.from), e.to),
        edges: if g.edges.contains(e) {
            g.edges
        } else {
            g.edges.push(e)
        },
        ..g
    }
}

/// A graph with more edges, one after the other.
pub open spec fn with_edges(g: GraphView, es: Seq<EdgeView>) -> GraphView
    decreases es.len(),
{
    if es.len() == 0 {
        g
    } else {
        with_edge(with_edges(g, es.drop_last()), es.last())
    }
}

/// Edges of one kind from a unit to each of a list.
pub open spec fn edges_to(n: NameView, kind: DepEdge, ts: Seq<NameView>) -> Seq<EdgeView> {
    ts.map_values(|t: NameView| EdgeView { from: n, kind, to: t })
}

/// Edges of one kind to a unit from each of a list.
pub open spec fn edges_from(ss: Seq<NameView>, kind: DepEdge, n: NameView) -> Seq<EdgeView> {
    ss.map_values(|s: NameView| EdgeView { from: s, kind, to: n })
}

/// The edges that the `[Unit]` section declares.
pub open spec fn declared_edges(n: NameView, d: DepsView) -> Seq<EdgeView> {
    edges_to(n, DepEdge::Wants, d.wants) + edges_to(n, DepEdge::Requires, d.requires) + edges_to(
        n,
        DepEdge::Requisite,
        d.requisite,
    ) + edges_to(n, DepEdge::BindsTo, d.binds_to) + edges_to(n, DepEdge::PartOf, d.part_of)
        + edges_to(n, DepEdge::Upholds, d.upholds) + edges_to(n, DepEdge::Conflicts, d.conflicts)
        + edges_to(n, DepEdge::OnFailure, d.on_failure) + edges_to(
        n,
        DepEdge::OnSuccess,
        d.on_success,
    ) + edges_to(n, DepEdge::PropagatesReloadTo, d.propagates_reload_to) + edges_to(
        n,
        DepEdge::PropagatesStopTo,
        d.propagates_stop_to,
    ) + edges_to(n, DepEdge::After, d.after) + edges_to(n, DepEdge::Before, d.before)
}

/// The edges that the `[Install]` section turns around: `WantedBy=foo` on unit
/// `bar` means `foo Wants bar`, and so on, where default dependencies are on.
pub open spec fn install_edges(n: NameView, i: InstallView, default_dependencies: bool) -> Seq<
    EdgeView,
> {
    if default_dependencies {
        edges_from(i.wanted_by, DepEdge::Wants, n) + edges_from(
            i.required_by,
            DepEdge::Requires,
            n,
        ) + edges_from(i.upheld_by, DepEdge::Upholds, n)
    } else {
        seq![]
    }
}

/// The unit that a timer, path or socket activates, where it is named.
pub open spec fn activated_unit(kind: TypeView) -> Option<NameView> {
    match kind {
        TypeView::Timer(t) => t.unit,
        TypeView::Path(p) => p.unit,
        TypeView::Socket(s) => s.service,
        _ => None,
    }
}

/// The edges that a timer, path or socket implies: it wants the unit that it
/// activates, and starts before it.
pub open spec fn implicit_edges(n: NameView, kind: TypeView) -> Seq<EdgeView> {
    match activated_unit(kind) {
        Some(t) => seq![
            EdgeView { from: n, kind: DepEdge::Wants, to: t },
            EdgeView { from: n, kind: DepEdge::Before, to: t },
        ],
        None => seq![],
    }
}

/// A graph with a unit: whether isolating leaves it alone, and its edges.
pub open spec fn with_unit(g: GraphView, n: NameView, u: UnitView) -> GraphView {
    let marked = if u.ignore_on_isolate {
        GraphView { exempt: name_map::with_name(g.exempt, n), ..g }
    } else {
        g
    };
    with_edges(
        with_edges(
            with_edges(marked, declared_edges(n, u.deps)),
            install_edges(n, u.install, u.default_dependencies),
        ),
        implicit_edges(n, u.kind),
    )
}

/// The graph of a snapshot of units: all of its names first, then what each
/// unit declares, in order.
pub open spec fn graph_of(names: Seq<NameView>, units: Seq<UnitView>) -> GraphView
    decreases units.len(),
{
    if units.len() == 0 {
        GraphView { nodes: names, ..no_graph() }
    } else {
        with_unit(
            graph_of(names, units.drop_last()),
            names[units.len() - 1],
            units.last(),
        )
    }
}

/// The views of a list of references to units.
pub open spec fn units_view(v: Seq<&Unit>) -> Seq<UnitView> {
    v.map_values(|u: &Unit| u@)
}

// ---------------------------------------------------------------------
// Facts about the model
// ---------------------------------------------------------------------

proof fn lemma_targets_push(edges: Seq<EdgeView>, e: EdgeView, n: NameView)
    ensures
        targets(edges.push(e), n) == if e.from == n {
            targets(edges, n).push((e.kind, e.to))
        } else {
            targets(edges, n)
        },
        sources(edges.push(e), n) == if e.to == n {
            sources(edges, n).push((e.kind, e.from))
        } else {
            sources(edges, n)
        },
{
    assert(edges.push(e).drop_last() =~= edges);
}

/// An edge is in the graph just if it is among the edges leaving its source,
/// and just if it is among those entering its target.
pub proof fn forward_and_reverse_agree(edges: Seq<EdgeView>, e: EdgeView)
    ensures
        targets(edges, e.from).contains((e.kind, e.to)) == edges.contains(e),
        sources(edges, e.to).contains((e.kind, e.from)) == edges.contains(e),
    decreases edges.len(),
{
    if edges.len() > 0 {
        let rest = edges.drop_last();
        let last = edges.last();
        forward_and_reverse_agree(rest, e);
        assert(edges =~= rest.push(last));
        lemma_push_contains(rest, last, e);
        lemma_push_contains(targets(rest, e.from), (last.kind, last.to), (e.kind, e.to));
        lemma_push_contains(sources(rest, e.to), (last.kind, last.from), (e.kind, e.from));
    }
}

proof fn lemma_push_contains<T>(s: Seq<T>, x: T, y: T)
    ensures
        s.push(x).contains(y) == (s.contains(y) || x == y),
{
    if s.contains(y) {
        let k = choose|k: int| 0 <= k < s.len() && s[k] == y;
        assert(s.push(x)[k] == y);
    }
    if x == y {
        assert(s.push(x)[s.len() as int] == y);
    }
    if s.push(x).contains(y) && x != y {
        let k = choose|k: int| 0 <= k < s.push(x).len() && s.push(x)[k] == y;
        assert(s[k] == y);
    }
}

/// Adding an edge a second time changes nothing.
pub proof fn adding_twice_changes_nothing(g: GraphView, e: EdgeView)
    ensures
        with_edge(with_edge(g, e), e) == with_edge(g, e),
{
    lemma_push_contains(g.edges, e, e);
    let one = name_map::with_name(g.nodes, e.from);
    lemma_push_contains(g.nodes, e.from, e.from);
    lemma_push_contains(one, e.to, e.to);
    lemma_push_contains(one, e.to, e.from);
}

proof fn lemma_ends_once(edges: Seq<EdgeView>, n: NameView)
    requires
        edges.no_duplicates(),
    ensures
        targets(edges, n).no_duplicates(),
        sources(edges, n).no_duplicates(),
    decreases edges.len(),
{
    if edges.len() > 0 {
        let rest = edges.drop_last();
        let e = edges.last();
        assert(edges =~= rest.push(e));
        assert(rest.no_duplicates()) by {
            assert forall|i: int, j: int|
                0 <= i < rest.len() && 0 <= j < rest.len() && i != j implies rest[i] != rest[j] by {
                assert(edges[i] == rest[i] && edges[j] == rest[j]);
            }
        }
        assert(!rest.contains(e)) by {
            if rest.contains(e) {
                let k = choose|k: int| 0 <= k < rest.len() && rest[k] == e;
                assert(edges[k] == edges[edges.len() - 1]);
            }
        }
        lemma_ends_once(rest, n);
        forward_and_reverse_agree(rest, e);
        lemma_push_once(targets(rest, n), (e.kind, e.to));
        lemma_push_once(sources(rest, n), (e.kind, e.from));
    }
}

proof fn lemma_push_once<T>(s: Seq<T>, x: T)
    requires
        s.no_duplicates(),
    ensures
        !s.contains(x) ==> s.push(x).no_duplicates(),
{
    if !s.contains(x) {
        let t = s.push(x);
        assert forall|i: int, j: int|
            0 <= i < t.len() && 0 <= j < t.len() && i != j implies t[i] != t[j] by {
            if i < s.len() {
                assert(s[i] == t[i]);
            }
            if j < s.len() {
                assert(s[j] == t[j]);
            }
        }
    }
}

/// An added edge occurs exactly once among those that leave its source and
/// among those that enter its target, both of which are in the graph. Every
/// other edge is as before.
pub proof fn an_added_edge_occurs_once(g: GraphView, e: EdgeView)
    requires
        g.edges.no_duplicates(),
    ensures
        ({
            let h = with_edge(g, e);
            &&& h.edges.no_duplicates()
            &&& h.nodes.contains(e.from) && h.nodes.contains(e.to)
            &&& targets(h.edges, e.from).contains((e.kind, e.to))
            &&& targets(h.edges, e.from).no_duplicates()
            &&& sources(h.edges, e.to).contains((e.kind, e.from))
            &&& sources(h.edges, e.to).no_duplicates()
            &&& forall|n: NameView|
                n != e.from ==> #[trigger] targets(h.edges, n) == targets(g.edges, n)
            &&& forall|n: NameView|
                n != e.to ==> #[trigger] sources(h.edges, n) == sources(g.edges, n)
            &&& forall|p: (DepEdge, NameView)|
                p != (e.kind, e.to) ==> #[trigger] targets(h.edges, e.from).contains(p) == targets(
                    g.edges,
                    e.from,
                ).contains(p)
            &&& forall|p: (DepEdge, NameView)|
                p != (e.kind, e.from) ==> #[trigger] sources(h.edges, e.to).contains(p) == sources(
                    g.edges,
                    e.to,
                ).contains(p)
        }),
{
    let h = with_edge(g, e);
    lemma_push_contains(g.edges, e, e);
    lemma_push_once(g.edges, e);
    lemma_ends_once(h.edges, e.from);
    lemma_ends_once(h.edges, e.to);
    forward_and_reverse_agree(h.edges, e);
    let one = name_map::with_name(g.nodes, e.from);
    lemma_push_contains(g.nodes, e.from, e.from);
    lemma_push_contains(one, e.to, e.to);
    lemma_push_contains(one, e.to, e.from);
    assert forall|n: NameView| n != e.from implies #[trigger] targets(h.edges, n) == targets(
        g.edges,
        n,
    ) by {
        lemma_targets_push(g.edges, e, n);
    }
    assert forall|n: NameView| n != e.to implies #[trigger] sources(h.edges, n) == sources(
        g.edges,
        n,
    ) by {
        lemma_targets_push(g.edges, e, n);
    }
    assert forall|p: (DepEdge, NameView)| p != (e.kind, e.to) implies #[trigger] targets(
        h.edges,
        e.from,
    ).contains(p) == targets(g.edges, e.from).contains(p) by {
        lemma_targets_push(g.edges, e, e.from);
        lemma_push_contains(targets(g.edges, e.from), (e.kind, e.to), p);
    }
    assert forall|p: (DepEdge, NameView)| p != (e.kind, e.from) implies #[trigger] sources(
        h.edges,
        e.to,
    ).contains(p) == sources(g.edges, e.to).contains(p) by {
        lemma_targets_push(g.edges, e, e.to);
        lemma_push_contains(sources(g.edges, e.to), (e.kind, e.from), p);
    }
}

/// Adding two lists of edges one after the other adds both.
pub proof fn lemma_with_edges_add(g: GraphView, a: Seq<EdgeView>, b: Seq<EdgeView>)
    ensures
        with_edges(g, a + b) == with_edges(with_edges(g, a), b),
    decreases b.len(),
{
    if b.len() == 0 {
        assert(a + b =~= a);
    } else {
        assert((a + b).drop_last() =~= a + b.drop_last());
        assert((a + b).last() == b.last());
        lemma_with_edges_add(g, a, b.drop_last());
    }
}

// ---------------------------------------------------------------------
// The graph
// ---------------------------------------------------------------------

/// The views of a list of edge ends.
pub open spec fn ends_view(v: Seq<(DepEdge, UnitName)>) -> Seq<(DepEdge, NameView)> {
    v.map_values(|p: (DepEdge, UnitName)| (p.0, p.1@))
}

/// What a map of edge ends holds for a name.
spec fn ends_at(m: NameMap<Vec<(DepEdge, UnitName)>>, n: NameView) -> Seq<(DepEdge, NameView)> {
    if m.keys().contains(n) {
        ends_view(m.values()[m.keys().index_of(n)]@)
    } else {
        seq![]
    }
}

/// The dependency graph.
///
/// Constructed from a snapshot of loaded units via [`DepGraph::build`]. Edges
/// are stored both forward (source→targets) and reverse (target→sources), so
/// that neither direction has to scan them all.
pub struct DepGraph {
    forward: NameMap<Vec<(DepEdge, UnitName)>>,
    reverse: NameMap<Vec<(DepEdge, UnitName)>>,
    nodes: NameTable,
    exempt: NameTable,
    edges: Ghost<Seq<EdgeView>>,
}

impl View for DepGraph {
    type V = GraphView;

    closed spec fn view(&self) -> GraphView {
        GraphView { nodes: self.nodes@, edges: self.edges@, exempt: self.exempt@ }
    }
}

/// Adds an edge end to a name's list, unless it is there.
fn add_end(m: &mut NameMap<Vec<(DepEdge, UnitName)>>, at: &UnitName, kind: DepEdge, other: &UnitName)
    ensures
        forall|n: NameView| #[trigger]
            ends_at(*final(m), n) == if n == at@ && !ends_at(*old(m), n).contains((kind, other@)) {
                ends_at(*old(m), n).push((kind, other@))
            } else {
                ends_at(*old(m), n)
            },
{
    let ghost m0 = *m;
    let mut list: Vec<(DepEdge, UnitName)> = Vec::new();
    let found = m.position(at);
    if let Some(i) = found {
        proof {
            assert(m.keys().contains(at@));
            assert(m.keys().index_of(at@) == i);
        }
        list = copy_ends(m.value_at(i));
    }
    let ghost was = ends_view(list@);
    proof {
        assert(was =~= ends_at(m0, at@));
    }
    let mut i: usize = 0;
    let mut present = false;
    while i < list.len()
        invariant
            i <= list.len(),
            was == ends_view(list@),
            present == was.take(i as int).contains((kind, other@)),
        decreases list.len() - i,
    {
        proof {
            assert(was.take(i + 1) =~= was.take(i as int).push(was[i as int]));
            lemma_push_contains(was.take(i as int), was[i as int], (kind, other@));
        }
        if list[i].0 == kind && list[i].1.same_as(other) {
            present = true;
        }
        i = i + 1;
    }
    proof {
        assert(was.take(was.len() as int) =~= was);
    }
    if !present {
        list.push((kind, other.clone()));
        proof {
            assert(ends_view(list@) =~= was.push((kind, other@)));
        }
    }
    match found {
        Some(i) => {
            m.set(i, list);
        },
        None => {
            m.insert(at.clone(), list);
        },
    }
    proof {
        assert forall|n: NameView| #[trigger]
            ends_at(*m, n) == if n == at@ && !ends_at(m0, n).contains((kind, other@)) {
                ends_at(m0, n).push((kind, other@))
            } else {
                ends_at(m0, n)
            } by {
            lemma_lookup_after_insert(m0, *m, n, at@, list);
        }
    }
}

/// What is found in a map after one entry was set.
proof fn lemma_lookup_after_insert(
    m0: NameMap<Vec<(DepEdge, UnitName)>>,
    m1: NameMap<Vec<(DepEdge, UnitName)>>,
    n: NameView,
    at: NameView,
    list: Vec<(DepEdge, UnitName)>,
)
    requires
        m0.keys().no_duplicates(),
        m0.keys().len() == m0.values().len(),
        m0.keys().contains(at) ==> m1.keys() == m0.keys() && m1.values() == m0.values().update(
            m0.keys().index_of(at),
            list,
        ),
        !m0.keys().contains(at) ==> m1.keys() == m0.keys().push(at) && m1.values()
            == m0.values().push(list),
    ensures
        ends_at(m1, n) == if n == at {
            ends_view(list@)
        } else {
            ends_at(m0, n)
        },
{
    let k0 = m0.keys();
    let k1 = m1.keys();
    lemma_push_contains(k0, at, n);
    if k0.contains(n) {
        let i = k0.index_of(n);
        assert(0 <= i < k0.len() && k0[i] == n);
        assert(k1[i] == n);
        let j = k1.index_of(n);
        assert(0 <= j < k1.len() && k1[j] == n);
        if j < k0.len() {
            assert(k0[j] == n);
            assert(i == j);
        }
        if k0.contains(at) && n != at {
            let a = k0.index_of(at);
            assert(k0[a] == at);
        }
    } else if n == at {
        let j = k1.index_of(n);
        assert(k1[k0.len() as int] == n);
        assert(0 <= j < k1.len() && k1[j] == n);
        if j < k0.len() {
            assert(k0[j] == n);
        }
    }
}

/// A copy of a list of edge ends.
fn copy_ends(v: &Vec<(DepEdge, UnitName)>) -> (r: Vec<(DepEdge, UnitName)>)
    ensures
        ends_view(r@) == ends_view(v@),
{
    let mut out: Vec<(DepEdge, UnitName)> = Vec::new();
    let mut i: usize = 0;
    let ghost all = ends_view(v@);
    proof {
        assert(ends_view(out@) =~= all.take(0));
    }
    while i < v.len()
        invariant
            i <= v.len(),
            all == ends_view(v@),
            ends_view(out@) == all.take(i as int),
        decreases v.len() - i,
    {
        let ghost before = out@;
        out.push((v[i].0, v[i].1.clone()));
        proof {
            assert(ends_view(out@) =~= ends_view(before).push(all[i as int]));
            assert(all.take(i + 1) =~= all.take(i as int).push(all[i as int]));
        }
        i = i + 1;
    }
    proof {
        assert(all.take(all.len() as int) =~= all);
    }
    out
}

/// Whether both ends of every edge are among the names.
pub open spec fn is_closed(g: GraphView) -> bool {
    forall|i: int|
        0 <= i < g.edges.len() ==> g.nodes.contains((#[trigger] g.edges[i]).from)
            && g.nodes.contains(g.edges[i].to)
}

impl DepGraph {
    #[verifier::type_invariant]
    closed spec fn wf(&self) -> bool {
        &&& forall|n: NameView| #[trigger]
            ends_at(self.forward, n) == targets(self.edges@, n)
        &&& forall|n: NameView| #[trigger] ends_at(self.reverse, n) == sources(self.edges@, n)
        &&& forall|i: int|
            0 <= i < self.edges@.len() ==> self.nodes@.contains((#[trigger] self.edges@[i]).from)
                && self.nodes@.contains(self.edges@[i].to)
        &&& self.edges@.no_duplicates()
        &&& self.nodes@.no_duplicates()
    }

    /// Construct an empty graph.
    #[must_use]
    pub fn new() -> (r: Self)
        ensures
            r@ == no_graph(),
    {
        let r = DepGraph {
            forward: NameMap::new(),
            reverse: NameMap::new(),
            nodes: NameTable::new(),
            exempt: NameTable::new(),
            edges: Ghost(Seq::empty()),
        };
        proof {
            assert(r@ =~= no_graph());
        }
        r
    }

    /// Add a directed edge. Idempotent: duplicates are dropped.
    pub fn add_edge(&mut self, from: UnitName, kind: DepEdge, to: UnitName)
        ensures
            final(self)@ == with_edge(old(self)@, EdgeView { from: from@, kind, to: to@ }),
    {
        let mut own = DepGraph::new();
        core::mem::swap(&mut own, self);
        let ghost g0 = own@;
        let ghost e = EdgeView { from: from@, kind, to: to@ };
        proof {
            use_type_invariant(&own);
            forward_and_reverse_agree(own.edges@, e);
        }
        let DepGraph { mut forward, mut reverse, mut nodes, exempt, edges } = own;
        let ghost ns0 = nodes@;
        let ghost es0 = edges@;
        let _ = nodes.insert(from.clone());
        let ghost ns1 = nodes@;
        let _ = nodes.insert(to.clone());
        add_end(&mut forward, &from, kind, &to);
        add_end(&mut reverse, &to, kind, &from);
        let ghost es1 = with_edge(g0, e).edges;
        let edges: Ghost<Seq<EdgeView>> = Ghost(es1);
        proof {
            assert forall|n: NameView| #[trigger] ends_at(forward, n) == targets(es1, n) by {
                lemma_targets_push(es0, e, n);
            }
            assert forall|n: NameView| #[trigger] ends_at(reverse, n) == sources(es1, n) by {
                lemma_targets_push(es0, e, n);
            }
            assert forall|i: int| 0 <= i < es1.len() implies nodes@.contains(
                (#[trigger] es1[i]).from,
            ) && nodes@.contains(es1[i].to) by {
                let x = es1[i];
                lemma_push_contains(ns0, from@, x.from);
                lemma_push_contains(ns0, from@, x.to);
                lemma_push_contains(ns1, to@, x.from);
                lemma_push_contains(ns1, to@, x.to);
                if i < es0.len() {
                    assert(es0[i] == x);
                }
            }
            assert(es1.no_duplicates()) by {
                if !es0.contains(e) {
                    assert forall|i: int, j: int|
                        0 <= i < es1.len() && 0 <= j < es1.len() && i != j implies es1[i]
                        != es1[j] by {
                        if i < es0.len() {
                            assert(es0[i] == es1[i]);
                        }
                        if j < es0.len() {
                            assert(es0[j] == es1[j]);
                        }
                    }
                }
            }
        }
        *self = DepGraph { forward, reverse, nodes, exempt, edges };
        proof {
            assert(self@ =~= with_edge(g0, e));
        }
    }

    fn add_edges_to(&mut self, src: &UnitName, kind: DepEdge, ts: &NameSet)
        ensures
            final(self)@ == with_edges(old(self)@, edges_to(src@, kind, ts@)),
    {
        let mut i: usize = 0;
        let ghost all = edges_to(src@, kind, ts@);
        let ghost g0 = self@;
        while i < ts.len()
            invariant
                i <= all.len(),
                all == edges_to(src@, kind, ts@),
                self@ == with_edges(g0, all.take(i as int)),
            decreases ts@.len() - i,
        {
            proof {
                assert(all.take(i + 1).drop_last() =~= all.take(i as int));
                assert(all.take(i + 1).last() == all[i as int]);
            }
            self.add_edge(src.clone(), kind, ts.get(i).clone());
            i = i + 1;
        }
        proof {
            assert(all.take(all.len() as int) =~= all);
        }
    }

    fn add_edges_from(&mut self, ss: &NameSet, kind: DepEdge, dst: &UnitName)
        ensures
            final(self)@ == with_edges(old(self)@, edges_from(ss@, kind, dst@)),
    {
        let mut i: usize = 0;
        let ghost all = edges_from(ss@, kind, dst@);
        let ghost g0 = self@;
        while i < ss.len()
            invariant
                i <= all.len(),
                all == edges_from(ss@, kind, dst@),
                self@ == with_edges(g0, all.take(i as int)),
            decreases ss@.len() - i,
        {
            proof {
                assert(all.take(i + 1).drop_last() =~= all.take(i as int));
                assert(all.take(i + 1).last() == all[i as int]);
            }
            self.add_edge(ss.get(i).clone(), kind, dst.clone());
            i = i + 1;
        }
        proof {
            assert(all.take(all.len() as int) =~= all);
        }
    }

    /// Walk `unit.deps`: each entry adds a forward edge.
    fn add_unit_edges(&mut self, src: &UnitName, unit: &Unit)
        ensures
            final(self)@ == with_edges(old(self)@, declared_edges(src@, unit@.deps)),
    {
        let ghost g0 = self@;
        let ghost n = src@;
        let ghost v = unit@.deps;
        let d = &unit.deps;
        self.add_edges_to(src, DepEdge::Wants, &d.wants);
        let ghost a = edges_to(n, DepEdge::Wants, v.wants);
        self.add_edges_to(src, DepEdge::Requires, &d.requires);
        proof {
            lemma_with_edges_add(g0, a, edges_to(n, DepEdge::Requires, v.requires));
        }
        let ghost a = a + edges_to(n, DepEdge::Requires, v.requires);
        self.add_edges_to(src, DepEdge::Requisite, &d.requisite);
        proof {
            lemma_with_edges_add(g0, a, edges_to(n, DepEdge::Requisite, v.requisite));
        }
        let ghost a = a + edges_to(n, DepEdge::Requisite, v.requisite);
        self.add_edges_to(src, DepEdge::BindsTo, &d.binds_to);
        proof {
            lemma_with_edges_add(g0, a, edges_to(n, DepEdge::BindsTo, v.binds_to));
        }
        let ghost a = a + edges_to(n, DepEdge::BindsTo, v.binds_to);
        self.add_edges_to(src, DepEdge::PartOf, &d.part_of);
        proof {
            lemma_with_edges_add(g0, a, edges_to(n, DepEdge::PartOf, v.part_of));
        }
        let ghost a = a + edges_to(n, DepEdge::PartOf, v.part_of);
        self.add_edges_to(src, DepEdge::Upholds, &d.upholds);
        proof {
            lemma_with_edges_add(g0, a, edges_to(n, DepEdge::Upholds, v.upholds));
        }
        let ghost a = a + edges_to(n, DepEdge::Upholds, v.upholds);
        self.add_edges_to(src, DepEdge::Conflicts, &d.conflicts);
        proof {
            lemma_with_edges_add(g0, a, edges_to(n, DepEdge::Conflicts, v.conflicts));
        }
        let ghost a = a + edges_to(n, DepEdge::Conflicts, v.conflicts);
        self.add_edges_to(src, DepEdge::OnFailure, &d.on_failure);
        proof {
            lemma_with_edges_add(g0, a, edges_to(n, DepEdge::OnFailure, v.on_failure));
        }
        let ghost a = a + edges_to(n, DepEdge::OnFailure, v.on_failure);
        self.add_edges_to(src, DepEdge::OnSuccess, &d.on_success);
        proof {
            lemma_with_edges_add(g0, a, edges_to(n, DepEdge::OnSuccess, v.on_success));
        }
        let ghost a = a + edges_to(n, DepEdge::OnSuccess, v.on_success);
        self.add_edges_to(src, DepEdge::PropagatesReloadTo, &d.propagates_reload_to);
        proof {
            lemma_with_edges_add(
                g0,
                a,
                edges_to(n, DepEdge::PropagatesReloadTo, v.propagates_reload_to),
            );
        }
        let ghost a = a + edges_to(n, DepEdge::PropagatesReloadTo, v.propagates_reload_to);
        self.add_edges_to(src, DepEdge::PropagatesStopTo, &d.propagates_stop_to);
        proof {
            lemma_with_edges_add(
                g0,
                a,
                edges_to(n, DepEdge::PropagatesStopTo, v.propagates_stop_to),
            );
        }
        let ghost a = a + edges_to(n, DepEdge::PropagatesStopTo, v.propagates_stop_to);
        self.add_edges_to(src, DepEdge::After, &d.after);
        proof {
            lemma_with_edges_add(g0, a, edges_to(n, DepEdge::After, v.after));
        }
        let ghost a = a + edges_to(n, DepEdge::After, v.after);
        self.add_edges_to(src, DepEdge::Before, &d.before);
        proof {
            lemma_with_edges_add(g0, a, edges_to(n, DepEdge::Before, v.before));
        }
    }

    /// `[Install] WantedBy=foo` on unit `bar` synthesizes an edge
    /// `foo Wants bar`. Same for `RequiredBy=` → `Requires`, and
    /// `UpheldBy=` → `Upholds`, only when `DefaultDependencies=yes`.
    fn add_install_reverse_edges(&mut self, src: &UnitName, unit: &Unit)
        ensures
            final(self)@ == with_edges(
                old(self)@,
                install_edges(src@, unit@.install, unit@.default_dependencies),
            ),
    {
        if !unit.default_dependencies {
            return;
        }
        let ghost g0 = self@;
        let ghost v = unit@.install;
        self.add_edges_from(&unit.install.wanted_by, DepEdge::Wants, src);
        let ghost a = edges_from(v.wanted_by, DepEdge::Wants, src@);
        self.add_edges_from(&unit.install.required_by, DepEdge::Requires, src);
        proof {
            lemma_with_edges_add(g0, a, edges_from(v.required_by, DepEdge::Requires, src@));
        }
        let ghost a = a + edges_from(v.required_by, DepEdge::Requires, src@);
        self.add_edges_from(&unit.install.upheld_by, DepEdge::Upholds, src);
        proof {
            lemma_with_edges_add(g0, a, edges_from(v.upheld_by, DepEdge::Upholds, src@));
        }
    }

    /// Type-specific implicit edges: a `.timer`, `.path` or `.socket` wants
    /// the unit that it activates and starts before it.
    fn add_implicit_edges(&mut self, src: &UnitName, unit: &Unit)
        ensures
            final(self)@ == with_edges(old(self)@, implicit_edges(src@, unit@.kind)),
    {
        let ghost g0 = self@;
        let target: Option<UnitName> = match &unit.kind {
            UnitTypeData::Timer(t) => match &t.unit {
                Some(n) => Some(n.clone()),
                None => None,
            },
            UnitTypeData::Path(p) => match &p.unit {
                Some(n) => Some(n.clone()),
                None => None,
            },
            UnitTypeData::Socket(s) => match &s.service {
                Some(n) => Some(n.clone()),
                None => None,
            },
            _ => None,
        };
        if let Some(t) = target {
            self.add_edge(src.clone(), DepEdge::Wants, t.clone());
            self.add_edge(src.clone(), DepEdge::Before, t.clone());
            proof {
                let es = implicit_edges(src@, unit@.kind);
                assert(es.drop_last() =~= seq![es[0]]);
                assert(es.drop_last().drop_last() =~= seq![]);
                reveal_with_fuel(with_edges, 3);
            }
        }
    }

    /// Marks a unit that isolating leaves alone.
    fn exempt_from_isolate(&mut self, name: &UnitName)
        ensures
            final(self)@ == (GraphView {
                exempt: name_map::with_name(old(self)@.exempt, name@),
                ..old(self)@
            }),
    {
        let mut own = DepGraph::new();
        core::mem::swap(&mut own, self);
        proof {
            use_type_invariant(&own);
        }
        let DepGraph { forward, reverse, nodes, mut exempt, edges } = own;
        let _ = exempt.insert(name.clone());
        *self = DepGraph { forward, reverse, nodes, exempt, edges };
    }

    /// Adds a name without edges.
    fn add_node(&mut self, name: &UnitName)
        ensures
            final(self)@ == (GraphView {
                nodes: name_map::with_name(old(self)@.nodes, name@),
                ..old(self)@
            }),
    {
        let mut own = DepGraph::new();
        core::mem::swap(&mut own, self);
        proof {
            use_type_invariant(&own);
        }
        let DepGraph { forward, reverse, mut nodes, exempt, edges } = own;
        let ghost ns0 = nodes@;
        let _ = nodes.insert(name.clone());
        proof {
            assert forall|i: int| 0 <= i < edges@.len() implies nodes@.contains(
                (#[trigger] edges@[i]).from,
            ) && nodes@.contains(edges@[i].to) by {
                lemma_push_contains(ns0, name@, edges@[i].from);
                lemma_push_contains(ns0, name@, edges@[i].to);
            }
        }
        *self = DepGraph { forward, reverse, nodes, exempt, edges };
    }

    fn add_unit(&mut self, name: &UnitName, unit: &Unit)
        ensures
            final(self)@ == with_unit(old(self)@, name@, unit@),
    {
        if unit.ignore_on_isolate {
            self.exempt_from_isolate(name);
        }
        self.add_unit_edges(name, unit);
        self.add_install_reverse_edges(name, unit);
        self.add_implicit_edges(name, unit);
    }

    /// Build a graph from a snapshot of loaded units.
    ///
    /// Walks every `unit.deps`, every `unit.install` reverse pull, and every
    /// implicit edge (timer `Unit=`, path `Unit=`, socket `Service=`).
    pub fn build(units: &NameMap<&Unit>) -> (r: Self)
        ensures
            r@ == graph_of(units.keys(), units_view(units.values())),
    {
        let mut g = DepGraph::new();
        let n = units.len();
        let ghost names = units.keys();
        let ghost all = units_view(units.values());
        let mut i: usize = 0;
        while i < n
            invariant
                i <= n,
                n == names.len(),
                names == units.keys(),
                names.no_duplicates(),
                g@ == (GraphView { nodes: names.take(i as int), ..no_graph() }),
            decreases n - i,
        {
            proof {
                assert(!names.take(i as int).contains(names[i as int])) by {
                    if names.take(i as int).contains(names[i as int]) {
                        let k = choose|k: int|
                            0 <= k < i && names.take(i as int)[k] == names[i as int];
                        assert(names[k] == names[i as int]);
                    }
                }
                assert(names.take(i + 1) =~= names.take(i as int).push(names[i as int]));
            }
            g.add_node(units.name_at(i));
            i = i + 1;
        }
        proof {
            assert(names.take(n as int) =~= names);
            assert(all.take(0) =~= seq![]);
        }
        let mut k: usize = 0;
        while k < n
            invariant
                k <= n,
                n == names.len(),
                n == all.len(),
                names == units.keys(),
                all == units_view(units.values()),
                g@ == graph_of(names, all.take(k as int)),
            decreases n - k,
        {
            proof {
                assert(all.take(k + 1).drop_last() =~= all.take(k as int));
                assert(all.take(k + 1).last() == all[k as int]);
            }
            g.add_unit(units.name_at(k), units.value_at(k));
            k = k + 1;
        }
        proof {
            assert(all.take(n as int) =~= all);
        }
        g
    }

    /// The `(edge, target)` pairs leaving `name`.
    pub fn outgoing(&self, name: &UnitName) -> (r: Vec<(DepEdge, UnitName)>)
        ensures
            ends_view(r@) == targets(self@.edges, name@),
            ends_view(r@).no_duplicates(),
            self@.edges.no_duplicates(),
    {
        proof {
            use_type_invariant(self);
            lemma_ends_once(self.edges@, name@);
            assert(ends_at(self.forward, name@) == targets(self.edges@, name@));
        }
        match self.forward.get(name) {
            Some(v) => copy_ends(v),
            None => {
                let none: Vec<(DepEdge, UnitName)> = Vec::new();
                proof {
                    assert(ends_view(none@) =~= seq![]);
                }
                none
            },
        }
    }

    /// The `(edge, source)` pairs entering `name`. The edge kind is the kind as
    /// declared on the source.
    pub fn incoming(&self, name: &UnitName) -> (r: Vec<(DepEdge, UnitName)>)
        ensures
            ends_view(r@) == sources(self@.edges, name@),
            ends_view(r@).no_duplicates(),
            self@.edges.no_duplicates(),
    {
        proof {
            use_type_invariant(self);
            lemma_ends_once(self.edges@, name@);
            assert(ends_at(self.reverse, name@) == sources(self.edges@, name@));
        }
        match self.reverse.get(name) {
            Some(v) => copy_ends(v),
            None => {
                let none: Vec<(DepEdge, UnitName)> = Vec::new();
                proof {
                    assert(ends_view(none@) =~= seq![]);
                }
                none
            },
        }
    }

    /// All unit names seen on either side of an edge or seeded by
    /// [`DepGraph::build`].
    pub fn nodes(&self) -> (r: Vec<UnitName>)
        ensures
            crate::unit::name_set::names_view(r@) == self@.nodes,
            self@.nodes.no_duplicates(),
            self@.edges.no_duplicates(),
            is_closed(self@),
    {
        proof {
            use_type_invariant(self);
        }
        self.nodes.names()
    }

    /// Whether `name` was marked `IgnoreOnIsolate=yes`.
    pub fn ignore_on_isolate(&self, name: &UnitName) -> (r: bool)
        ensures
            r == self@.exempt.contains(name@),
    {
        self.exempt.contains(name)
    }
}

} // verus!
