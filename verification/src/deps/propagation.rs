//! How far a request reaches: starts, stops and reloads go on to the units that
//! they concern, and no unit gets a job without a reason.

use crate::deps::graph;
use crate::deps::graph::{DepEdge, EdgeView, GraphView};
use crate::deps::job::{JobMode, JobType};
use crate::deps::transaction;
use crate::deps::transaction::{ManagerFacts, PullView, Queued, TransactionView};
use crate::unit::name::NameView;
use vstd::prelude::*;

verus! {

// ---------------------------------------------------------------------
// Stops and reloads
// ---------------------------------------------------------------------

/// Whether stopping or reloading a unit does the same to another one.
pub open spec fn takes_along(g: GraphView, kind: JobType, a: NameView, b: NameView) -> bool {
    match kind {
        JobType::Stop => {
            ||| g.edges.contains(EdgeView { from: b, kind: DepEdge::BindsTo, to: a })
            ||| g.edges.contains(EdgeView { from: b, kind: DepEdge::PartOf, to: a })
            ||| g.edges.contains(EdgeView { from: a, kind: DepEdge::PropagatesStopTo, to: b })
        },
        JobType::Reload => g.edges.contains(
            EdgeView { from: a, kind: DepEdge::PropagatesReloadTo, to: b },
        ),
        _ => false,
    }
}

spec fn cascades(kind: JobType) -> bool {
    kind is Stop || kind is Reload
}

/// Whether pulls all ask for jobs of one kind, of units that are loaded.
spec fn uniform(f: ManagerFacts, ps: Seq<PullView>, kind: JobType) -> bool {
    forall|i: int|
        0 <= i < ps.len() ==> (#[trigger] ps[i]).kind == kind && f.loaded.contains(ps[i].unit)
}

/// Whether all jobs are of one kind.
spec fn all_of(q: Queued, kind: JobType) -> bool {
    forall|i: int| 0 <= i < q.kinds.len() ==> #[trigger] q.kinds[i] == kind
}

/// Whether all that a job of a unit asks for has a job.
spec fn satisfied(g: GraphView, f: ManagerFacts, kind: JobType, u: NameView, q: Queued) -> bool {
    forall|i: int|
        0 <= i < transaction::pulls(g, f, u, kind).len() ==> q.units.contains(
            (#[trigger] transaction::pulls(g, f, u, kind)[i]).unit,
        )
}

/// Whether that holds of every unit that has a job now and had none before.
spec fn answered(g: GraphView, f: ManagerFacts, kind: JobType, q: Queued, r: Queued) -> bool {
    forall|u: NameView| #[trigger]
        r.units.contains(u) && !q.units.contains(u) ==> satisfied(g, f, kind, u, r)
}

proof fn lemma_soft_pulls(
    f: ManagerFacts,
    ends: Seq<(DepEdge, NameView)>,
    one: DepEdge,
    two: DepEdge,
    kind: JobType,
)
    ensures
        uniform(f, transaction::soft_pulls(f, ends, one, two, kind), kind),
        forall|edge: DepEdge, t: NameView|
            (edge == one || edge == two) && f.loaded.contains(t) && #[trigger] ends.contains(
                (edge, t),
            ) ==> exists|i: int|
                0 <= i < transaction::soft_pulls(f, ends, one, two, kind).len() && (
                #[trigger] transaction::soft_pulls(f, ends, one, two, kind)[i]).unit == t,
    decreases ends.len(),
{
    if ends.len() > 0 {
        let rest = ends.drop_last();
        lemma_soft_pulls(f, rest, one, two, kind);
        let a = transaction::soft_pulls(f, rest, one, two, kind);
        let b = transaction::soft_pulls(f, ends, one, two, kind);
        assert forall|edge: DepEdge, t: NameView|
            (edge == one || edge == two) && f.loaded.contains(t) && #[trigger] ends.contains(
                (edge, t),
            ) implies exists|i: int| 0 <= i < b.len() && (#[trigger] b[i]).unit == t by {
            let k = choose|k: int| 0 <= k < ends.len() && ends[k] == (edge, t);
            if k < rest.len() {
                assert(rest[k] == (edge, t));
                assert(rest.contains((edge, t)));
                let i = choose|i: int| 0 <= i < a.len() && (#[trigger] a[i]).unit == t;
                assert(b[i] == a[i]);
            } else {
                assert(b[b.len() - 1].unit == t);
            }
        }
    }
}

proof fn lemma_uniform(g: GraphView, f: ManagerFacts, u: NameView, kind: JobType)
    requires
        cascades(kind),
    ensures
        uniform(f, transaction::pulls(g, f, u, kind), kind),
{
    let outgoing = graph::targets(g.edges, u);
    let incoming = graph::sources(g.edges, u);
    lemma_soft_pulls(f, incoming, DepEdge::BindsTo, DepEdge::PartOf, JobType::Stop);
    lemma_soft_pulls(
        f,
        outgoing,
        DepEdge::PropagatesStopTo,
        DepEdge::PropagatesStopTo,
        JobType::Stop,
    );
    lemma_soft_pulls(
        f,
        outgoing,
        DepEdge::PropagatesReloadTo,
        DepEdge::PropagatesReloadTo,
        JobType::Reload,
    );
}

/// What is taken along is asked for.
proof fn lemma_pulled(g: GraphView, f: ManagerFacts, kind: JobType, a: NameView, b: NameView)
    requires
        takes_along(g, kind, a, b),
        f.loaded.contains(b),
    ensures
        exists|i: int|
            0 <= i < transaction::pulls(g, f, a, kind).len() && (#[trigger] transaction::pulls(
                g,
                f,
                a,
                kind,
            )[i]).unit == b,
{
    let outgoing = graph::targets(g.edges, a);
    let incoming = graph::sources(g.edges, a);
    let ps = transaction::pulls(g, f, a, kind);
    if kind is Stop {
        let x = transaction::soft_pulls(
            f,
            incoming,
            DepEdge::BindsTo,
            DepEdge::PartOf,
            JobType::Stop,
        );
        let y = transaction::soft_pulls(
            f,
            outgoing,
            DepEdge::PropagatesStopTo,
            DepEdge::PropagatesStopTo,
            JobType::Stop,
        );
        lemma_soft_pulls(f, incoming, DepEdge::BindsTo, DepEdge::PartOf, JobType::Stop);
        lemma_soft_pulls(
            f,
            outgoing,
            DepEdge::PropagatesStopTo,
            DepEdge::PropagatesStopTo,
            JobType::Stop,
        );
        let bound = EdgeView { from: b, kind: DepEdge::BindsTo, to: a };
        let part = EdgeView { from: b, kind: DepEdge::PartOf, to: a };
        let forward = EdgeView { from: a, kind: DepEdge::PropagatesStopTo, to: b };
        graph::forward_and_reverse_agree(g.edges, bound);
        graph::forward_and_reverse_agree(g.edges, part);
        graph::forward_and_reverse_agree(g.edges, forward);
        if g.edges.contains(bound) || g.edges.contains(part) {
            assert(incoming.contains((DepEdge::BindsTo, b)) || incoming.contains(
                (DepEdge::PartOf, b),
            ));
            let i = choose|i: int| 0 <= i < x.len() && (#[trigger] x[i]).unit == b;
            assert(ps[i] == x[i]);
        } else {
            assert(outgoing.contains((DepEdge::PropagatesStopTo, b)));
            let i = choose|i: int| 0 <= i < y.len() && (#[trigger] y[i]).unit == b;
            assert(ps[x.len() + i] == y[i]);
        }
    } else {
        lemma_soft_pulls(
            f,
            outgoing,
            DepEdge::PropagatesReloadTo,
            DepEdge::PropagatesReloadTo,
            JobType::Reload,
        );
        graph::forward_and_reverse_agree(
            g.edges,
            EdgeView { from: a, kind: DepEdge::PropagatesReloadTo, to: b },
        );
        assert(outgoing.contains((DepEdge::PropagatesReloadTo, b)));
    }
}

proof fn lemma_cascade_job(
    g: GraphView,
    f: ManagerFacts,
    mode: JobMode,
    q: Queued,
    n: NameView,
    kind: JobType,
)
    requires
        cascades(kind),
        graph::is_closed(g),
        !(mode is IgnoreDependencies),
        transaction::sound(f, q),
        all_of(q, kind),
        f.loaded.contains(n),
    ensures
        ({
            let (r, e) = transaction::add_job(g, f, mode, q, n, kind);
            &&& e is None
            &&& all_of(r, kind)
            &&& answered(g, f, kind, q, r)
        }),
    decreases transaction::missing(g.nodes, q.units), 0nat, 1nat,
{
    let q1 = transaction::put(q, n, kind);
    transaction::lemma_put(f, q, n, kind);
    if q.units.contains(n) {
        assert(transaction::kind_for(q, n) == kind);
    } else if !g.nodes.contains(n) {
        transaction::lemma_no_pulls(g, f, n, kind);
        assert forall|u: NameView| #[trigger]
            q1.units.contains(u) && !q.units.contains(u) implies u == n by {
            let k = choose|k: int| 0 <= k < q1.units.len() && q1.units[k] == u;
            if k < q.units.len() {
                assert(q.units[k] == u);
            }
        }
    } else {
        transaction::lemma_missing_less(g.nodes, q.units, n);
        let ps = transaction::pulls(g, f, n, kind);
        lemma_uniform(g, f, n, kind);
        lemma_cascade_pulls(g, f, mode, q1, ps, kind);
        let r = transaction::add_pulls(g, f, mode, q1, ps).0;
        assert forall|u: NameView| #[trigger]
            r.units.contains(u) && !q.units.contains(u) implies satisfied(g, f, kind, u, r) by {
            if q1.units.contains(u) {
                let k = choose|k: int| 0 <= k < q1.units.len() && q1.units[k] == u;
                if k < q.units.len() {
                    assert(q.units[k] == u);
                }
                assert(u == n);
            }
        }
    }
}

proof fn lemma_cascade_pulls(
    g: GraphView,
    f: ManagerFacts,
    mode: JobMode,
    q: Queued,
    ps: Seq<PullView>,
    kind: JobType,
)
    requires
        cascades(kind),
        graph::is_closed(g),
        !(mode is IgnoreDependencies),
        transaction::sound(f, q),
        all_of(q, kind),
        uniform(f, ps, kind),
    ensures
        ({
            let (r, e) = transaction::add_pulls(g, f, mode, q, ps);
            &&& e is None
            &&& all_of(r, kind)
            &&& answered(g, f, kind, q, r)
            &&& forall|i: int| 0 <= i < ps.len() ==> r.units.contains((#[trigger] ps[i]).unit)
        }),
    decreases transaction::missing(g.nodes, q.units), ps.len(), 0nat,
{
    if ps.len() > 0 {
        let n = ps[0].unit;
        let q1 = transaction::add_job(g, f, mode, q, n, kind).0;
        lemma_cascade_job(g, f, mode, q, n, kind);
        transaction::lemma_add_job(g, f, mode, q, n, kind);
        transaction::lemma_missing_fewer(g.nodes, q.units, q1.units);
        let rest = ps.skip(1);
        assert(uniform(f, rest, kind)) by {
            assert forall|i: int| 0 <= i < rest.len() implies (#[trigger] rest[i]).kind == kind
                && f.loaded.contains(rest[i].unit) by {
                assert(rest[i] == ps[i + 1]);
            }
        }
        lemma_cascade_pulls(g, f, mode, q1, rest, kind);
        transaction::lemma_add_pulls(g, f, mode, q1, rest);
        let r = transaction::add_pulls(g, f, mode, q, ps).0;
        assert(r == transaction::add_pulls(g, f, mode, q1, rest).0);
        assert forall|u: NameView| #[trigger]
            r.units.contains(u) && !q.units.contains(u) implies satisfied(g, f, kind, u, r) by {
            if q1.units.contains(u) {
                assert(satisfied(g, f, kind, u, q1));
            }
        }
        assert forall|i: int| 0 <= i < ps.len() implies r.units.contains(
            (#[trigger] ps[i]).unit,
        ) by {
            if i > 0 {
                assert(rest[i - 1] == ps[i]);
            }
        }
    }
}

proof fn lemma_isolate_stops(
    g: GraphView,
    f: ManagerFacts,
    root: NameView,
    nodes: Seq<NameView>,
)
    ensures
        uniform(f, transaction::isolate_stops(g, f, root, nodes), JobType::Stop),
        forall|i: int|
            0 <= i < transaction::isolate_stops(g, f, root, nodes).len() ==> !(
            #[trigger] transaction::isolate_stops(g, f, root, nodes)[i]).hard,
    decreases nodes.len(),
{
    if nodes.len() > 0 {
        lemma_isolate_stops(g, f, root, nodes.drop_last());
    }
}

/// A stop reaches every loaded unit that is bound to a stopped one, is part of
/// it or has its stops propagated to it, however far away, and a reload every
/// one that reloads are propagated to; none of these jobs turns into another
/// kind.
pub proof fn stops_and_reloads_cascade(
    g: GraphView,
    f: ManagerFacts,
    next: u32,
    root: NameView,
    kind: JobType,
    mode: JobMode,
)
    requires
        graph::is_closed(g),
        transaction::built(g, f, next, root, kind, mode) is Ok,
        kind is Stop || (kind is Reload && !(mode is Isolate)),
        !(mode is IgnoreDependencies),
    ensures
        ({
            let t = transaction::built(g, f, next, root, kind, mode)->Ok_0;
            &&& forall|i: int| 0 <= i < t.jobs.len() ==> (#[trigger] t.jobs[i]).kind == kind
            &&& forall|a: NameView, b: NameView|
                transaction::has_job(t, a) && #[trigger] takes_along(g, kind, a, b)
                    && f.loaded.contains(b) ==> transaction::has_job(t, b)
        }),
{
    let t = transaction::built(g, f, next, root, kind, mode)->Ok_0;
    let none = transaction::none_queued();
    transaction::lemma_built(g, f, next, root, kind, mode);
    lemma_cascade_job(g, f, mode, none, root, kind);
    transaction::lemma_add_job(g, f, mode, none, root, kind);
    let q = transaction::add_job(g, f, mode, none, root, kind).0;
    let r = transaction::expanded(g, f, root, kind, mode).0;
    if mode is Isolate {
        let ps = transaction::isolate_stops(g, f, root, g.nodes);
        lemma_isolate_stops(g, f, root, g.nodes);
        lemma_cascade_pulls(g, f, JobMode::Replace, q, ps, kind);
        transaction::lemma_add_pulls(g, f, JobMode::Replace, q, ps);
    }
    assert forall|u: NameView| #[trigger] r.units.contains(u) implies satisfied(
        g,
        f,
        kind,
        u,
        r,
    ) by {
        if q.units.contains(u) {
            assert(!none.units.contains(u));
            assert(satisfied(g, f, kind, u, q));
        }
    }
    assert forall|a: NameView, b: NameView|
        transaction::has_job(t, a) && #[trigger] takes_along(g, kind, a, b) && f.loaded.contains(
            b,
        ) implies transaction::has_job(t, b) by {
        lemma_pulled(g, f, kind, a, b);
        assert(r.units.contains(a));
        let ps = transaction::pulls(g, f, a, kind);
        let i = choose|i: int| 0 <= i < ps.len() && (#[trigger] ps[i]).unit == b;
        assert(r.units.contains(ps[i].unit));
    }
    let us = transaction::run_order(g, mode, r.units)->Ok_0;
    assert forall|i: int| 0 <= i < t.jobs.len() implies (#[trigger] t.jobs[i]).kind == kind by {
        assert(us.contains(us[i]));
        assert(r.units.contains(us[i]));
        assert(r.kinds[r.units.index_of(us[i])] == kind);
    }
}

// ---------------------------------------------------------------------
// Starts
// ---------------------------------------------------------------------

/// Whether an edge is a dependency that a start cannot do without.
pub open spec fn is_hard(kind: DepEdge) -> bool {
    kind is Requires || kind is BindsTo || kind is Requisite
}

/// Whether all that units cannot do without is loaded.
spec fn supplied(g: GraphView, f: ManagerFacts, units: Seq<NameView>) -> bool {
    forall|e: EdgeView| #[trigger]
        g.edges.contains(e) && units.contains(e.from) && is_hard(e.kind) ==> f.loaded.contains(e.to)
}

/// Whether one of some units has another as its `Requisite=`.
spec fn verified(g: GraphView, units: Seq<NameView>, n: NameView) -> bool {
    exists|u: NameView|
        units.contains(u) && #[trigger] g.edges.contains(
            EdgeView { from: u, kind: DepEdge::Requisite, to: n },
        )
}

/// Whether a job of a unit is a start or a stop, or verifies a `Requisite=`.
spec fn is_expected(
    g: GraphView,
    f: ManagerFacts,
    units: Seq<NameView>,
    n: NameView,
    kind: JobType,
) -> bool {
    &&& f.loaded.contains(n)
    &&& kind is Start || kind is Stop || (kind is VerifyActive && verified(g, units, n))
}

spec fn all_expected(
    g: GraphView,
    f: ManagerFacts,
    units: Seq<NameView>,
    ps: Seq<PullView>,
) -> bool {
    forall|i: int|
        0 <= i < ps.len() ==> is_expected(g, f, units, (#[trigger] ps[i]).unit, ps[i].kind)
}

/// Whether all jobs of units that are not verified are starts, stops, or both
/// at once.
spec fn simple_kinds(g: GraphView, units: Seq<NameView>, q: Queued) -> bool {
    forall|i: int|
        0 <= i < q.kinds.len() ==> (#[trigger] q.kinds[i]) is Start || q.kinds[i] is Stop
            || q.kinds[i] is Restart || verified(g, units, q.units[i])
}

/// Whether a job is a start or a stop of a unit that is not verified.
spec fn is_plain(g: GraphView, units: Seq<NameView>, q: Queued, i: int) -> bool {
    (q.kinds[i] is Start || q.kinds[i] is Stop) && !verified(g, units, q.units[i])
}

/// Whether jobs go on from others: each stays in its place, and none becomes a
/// plain start or stop that was not one.
spec fn goes_on(g: GraphView, units: Seq<NameView>, q: Queued, r: Queued) -> bool {
    &&& q.units.len() <= r.units.len()
    &&& forall|i: int|
        0 <= i < q.units.len() ==> #[trigger] r.units[i] == q.units[i] && (is_plain(g, units, r, i)
            ==> r.kinds[i] == q.kinds[i])
}

/// Whether all that the new plain starts and stops ask for has a job.
spec fn fulfilled(
    g: GraphView,
    f: ManagerFacts,
    units: Seq<NameView>,
    q: Queued,
    r: Queued,
) -> bool {
    forall|i: int|
        q.units.len() <= i < r.units.len() && #[trigger] is_plain(g, units, r, i) ==> satisfied(
            g,
            f,
            r.kinds[i],
            r.units[i],
            r,
        )
}

proof fn lemma_start_kinds(
    g: GraphView,
    f: ManagerFacts,
    units: Seq<NameView>,
    n: NameView,
    ends: Seq<(DepEdge, NameView)>,
)
    requires
        supplied(g, f, units),
        units.contains(n),
        forall|k: int|
            0 <= k < ends.len() ==> g.edges.contains(
                EdgeView { from: n, kind: (#[trigger] ends[k]).0, to: ends[k].1 },
            ),
    ensures
        all_expected(g, f, units, transaction::start_pulls(f, ends)),
    decreases ends.len(),
{
    if ends.len() > 0 {
        let rest = ends.drop_last();
        assert forall|k: int| 0 <= k < rest.len() implies g.edges.contains(
            EdgeView { from: n, kind: (#[trigger] rest[k]).0, to: rest[k].1 },
        ) by {
            assert(rest[k] == ends[k]);
        }
        lemma_start_kinds(g, f, units, n, rest);
        let last = ends[ends.len() - 1];
        assert(g.edges.contains(EdgeView { from: n, kind: last.0, to: last.1 }));
    }
}

proof fn lemma_expected_pulls(
    g: GraphView,
    f: ManagerFacts,
    units: Seq<NameView>,
    n: NameView,
    kind: JobType,
)
    requires
        supplied(g, f, units),
        units.contains(n),
        kind is Start || kind is Stop,
    ensures
        all_expected(g, f, units, transaction::pulls(g, f, n, kind)),
{
    if kind is Stop {
        lemma_uniform(g, f, n, kind);
    } else {
        let ends = graph::targets(g.edges, n);
        assert forall|k: int| 0 <= k < ends.len() implies g.edges.contains(
            EdgeView { from: n, kind: (#[trigger] ends[k]).0, to: ends[k].1 },
        ) by {
            let e = EdgeView { from: n, kind: ends[k].0, to: ends[k].1 };
            graph::forward_and_reverse_agree(g.edges, e);
            assert(ends.contains((e.kind, e.to)));
        }
        lemma_start_kinds(g, f, units, n, ends);
    }
}

proof fn lemma_start_job(
    g: GraphView,
    f: ManagerFacts,
    mode: JobMode,
    units: Seq<NameView>,
    q: Queued,
    n: NameView,
    kind: JobType,
)
    requires
        graph::is_closed(g),
        supplied(g, f, units),
        !(mode is IgnoreDependencies),
        transaction::sound(f, q),
        simple_kinds(g, units, q),
        is_expected(g, f, units, n, kind),
        forall|u: NameView| #[trigger]
            transaction::add_job(g, f, mode, q, n, kind).0.units.contains(u) ==> units.contains(u),
    ensures
        ({
            let (r, e) = transaction::add_job(g, f, mode, q, n, kind);
            &&& e is None
            &&& simple_kinds(g, units, r)
            &&& goes_on(g, units, q, r)
            &&& fulfilled(g, f, units, q, r)
        }),
    decreases transaction::missing(g.nodes, q.units), 0nat, 1nat,
{
    let k = transaction::collapsed(f, n, kind);
    let q1 = transaction::put(q, n, k);
    transaction::lemma_put(f, q, n, k);
    transaction::lemma_add_job(g, f, mode, q, n, kind);
    let r = transaction::add_job(g, f, mode, q, n, kind).0;
    assert(units.contains(n));
    if q.units.contains(n) {
        let j = q.units.index_of(n);
        assert(q.units[j] == n);
        assert(simple_kinds(g, units, r));
    } else if kind is VerifyActive {
        let last = q.units.len() as int;
        assert(transaction::pulls(g, f, n, kind) =~= seq![]);
        if g.nodes.contains(n) {
            transaction::lemma_missing_less(g.nodes, q.units, n);
        }
        assert(r == q1);
        assert(q1.units[last] == n);
        assert(verified(g, units, q1.units[last]));
    } else if !g.nodes.contains(n) {
        transaction::lemma_no_pulls(g, f, n, kind);
    } else {
        transaction::lemma_missing_less(g.nodes, q.units, n);
        let ps = transaction::pulls(g, f, n, kind);
        lemma_expected_pulls(g, f, units, n, kind);
        lemma_start_all(g, f, mode, units, q1, ps);
        let last = q.units.len() as int;
        assert(r.units[last] == q1.units[last]);
        assert forall|i: int| 0 <= i < q.units.len() implies #[trigger] r.units[i] == q.units[i]
            && (is_plain(g, units, r, i) ==> r.kinds[i] == q.kinds[i]) by {
            assert(r.units[i] == q1.units[i]);
        }
    }
}

proof fn lemma_start_all(
    g: GraphView,
    f: ManagerFacts,
    mode: JobMode,
    units: Seq<NameView>,
    q: Queued,
    ps: Seq<PullView>,
)
    requires
        graph::is_closed(g),
        supplied(g, f, units),
        !(mode is IgnoreDependencies),
        transaction::sound(f, q),
        simple_kinds(g, units, q),
        all_expected(g, f, units, ps),
        forall|u: NameView| #[trigger]
            transaction::add_pulls(g, f, mode, q, ps).0.units.contains(u) ==> units.contains(u),
    ensures
        ({
            let (r, e) = transaction::add_pulls(g, f, mode, q, ps);
            &&& e is None
            &&& simple_kinds(g, units, r)
            &&& goes_on(g, units, q, r)
            &&& fulfilled(g, f, units, q, r)
            &&& forall|i: int| 0 <= i < ps.len() ==> r.units.contains((#[trigger] ps[i]).unit)
        }),
    decreases transaction::missing(g.nodes, q.units), ps.len(), 0nat,
{
    if ps.len() > 0 {
        let n = ps[0].unit;
        let kind = ps[0].kind;
        let rest = ps.skip(1);
        let q1 = transaction::add_job(g, f, mode, q, n, kind).0;
        let r = transaction::add_pulls(g, f, mode, q, ps).0;
        transaction::lemma_add_job(g, f, mode, q, n, kind);
        transaction::lemma_missing_fewer(g.nodes, q.units, q1.units);
        transaction::lemma_add_pulls(g, f, mode, q1, rest);
        assert(transaction::grown(q1, r));
        lemma_start_job(g, f, mode, units, q, n, kind);
        assert(r == transaction::add_pulls(g, f, mode, q1, rest).0);
        assert forall|i: int| 0 <= i < rest.len() implies is_expected(
            g,
            f,
            units,
            (#[trigger] rest[i]).unit,
            rest[i].kind,
        ) by {
            assert(rest[i] == ps[i + 1]);
        }
        lemma_start_all(g, f, mode, units, q1, rest);
        assert forall|i: int| 0 <= i < q.units.len() implies #[trigger] r.units[i] == q.units[i]
            && (is_plain(g, units, r, i) ==> r.kinds[i] == q.kinds[i]) by {
            assert(q1.units[i] == q.units[i]);
            assert(r.units[i] == q1.units[i]);
        }
        assert forall|i: int|
            q.units.len() <= i < r.units.len() && #[trigger] is_plain(
                g,
                units,
                r,
                i,
            ) implies satisfied(g, f, r.kinds[i], r.units[i], r) by {
            if i < q1.units.len() {
                assert(r.units[i] == q1.units[i]);
                assert(q1.kinds[i] == r.kinds[i]);
                assert(is_plain(g, units, q1, i));
                assert(satisfied(g, f, q1.kinds[i], q1.units[i], q1));
            }
        }
        assert forall|i: int| 0 <= i < ps.len() implies r.units.contains(
            (#[trigger] ps[i]).unit,
        ) by {
            if i > 0 {
                assert(rest[i - 1] == ps[i]);
            }
        }
    }
}

/// Whether a unit of a transaction has another as its `Requisite=`.
pub open spec fn is_requisite(g: GraphView, t: TransactionView, n: NameView) -> bool {
    exists|u: NameView|
        transaction::has_job(t, u) && #[trigger] g.edges.contains(
            EdgeView { from: u, kind: DepEdge::Requisite, to: n },
        )
}

/// A start goes on to all dependencies, however far away: whatever a started
/// unit requires, is bound to, wants, upholds or conflicts with has a job, and
/// so has whatever a stopped unit takes along. All that units of the transaction
/// cannot do without is loaded here. Nothing is said of the `Requisite=` of
/// another unit: where that asked for it first, it is verified and no more.
pub proof fn starts_cascade(
    g: GraphView,
    f: ManagerFacts,
    next: u32,
    root: NameView,
    mode: JobMode,
)
    requires
        graph::is_closed(g),
        transaction::built(g, f, next, root, JobType::Start, mode) is Ok,
        !(mode is IgnoreDependencies),
        forall|e: EdgeView| #[trigger]
            g.edges.contains(e) && transaction::has_job(
                transaction::built(g, f, next, root, JobType::Start, mode)->Ok_0,
                e.from,
            ) && is_hard(e.kind) ==> f.loaded.contains(e.to),
    ensures
        ({
            let t = transaction::built(g, f, next, root, JobType::Start, mode)->Ok_0;
            &&& forall|i: int, e: EdgeView|
                0 <= i < t.jobs.len() && (#[trigger] t.jobs[i]).kind is Start && !is_requisite(
                    g,
                    t,
                    t.jobs[i].unit,
                ) && #[trigger] g.edges.contains(e) && e.from == t.jobs[i].unit
                    && transaction::asks_for(f, e.kind, e.to) ==> transaction::has_job(t, e.to)
            &&& forall|i: int, b: NameView|
                0 <= i < t.jobs.len() && t.jobs[i].kind is Stop && !is_requisite(
                    g,
                    t,
                    t.jobs[i].unit,
                ) && #[trigger] takes_along(g, JobType::Stop, t.jobs[i].unit, b)
                    && f.loaded.contains(b) ==> transaction::has_job(t, b)
        }),
{
    let t = transaction::built(g, f, next, root, JobType::Start, mode)->Ok_0;
    let none = transaction::none_queued();
    transaction::lemma_built(g, f, next, root, JobType::Start, mode);
    let q = transaction::add_job(g, f, mode, none, root, JobType::Start).0;
    let r = transaction::expanded(g, f, root, JobType::Start, mode).0;
    transaction::lemma_add_job(g, f, mode, none, root, JobType::Start);
    let ps = transaction::isolate_stops(g, f, root, g.nodes);
    transaction::lemma_add_pulls(g, f, JobMode::Replace, q, ps);
    assert(transaction::grown(q, r));
    assert(supplied(g, f, r.units));
    lemma_start_job(g, f, mode, r.units, none, root, JobType::Start);
    if mode is Isolate {
        lemma_isolate_stops(g, f, root, g.nodes);
        lemma_start_all(g, f, JobMode::Replace, r.units, q, ps);
    }
    assert forall|k: int| 0 <= k < r.units.len() && #[trigger] is_plain(
        g,
        r.units,
        r,
        k,
    ) implies satisfied(g, f, r.kinds[k], r.units[k], r) by {
        if k < q.units.len() {
            assert(r.units[k] == q.units[k]);
            assert(q.kinds[k] == r.kinds[k]);
            assert(is_plain(g, r.units, q, k));
            assert(satisfied(g, f, q.kinds[k], q.units[k], q));
        }
    }
    let us = transaction::run_order(g, mode, r.units)->Ok_0;
    assert forall|i: int|
        0 <= i < t.jobs.len() && !is_requisite(g, t, (#[trigger] t.jobs[i]).unit) && (
        t.jobs[i].kind is Start || t.jobs[i].kind is Stop) implies satisfied(
        g,
        f,
        t.jobs[i].kind,
        t.jobs[i].unit,
        r,
    ) by {
        let u = us[i];
        assert(us.contains(u));
        let k = r.units.index_of(u);
        assert(r.units[k] == u && r.kinds[k] == t.jobs[i].kind);
        if verified(g, r.units, u) {
            let w = choose|w: NameView|
                r.units.contains(w) && #[trigger] g.edges.contains(
                    EdgeView { from: w, kind: DepEdge::Requisite, to: u },
                );
            assert(transaction::has_job(t, w));
        }
        assert(is_plain(g, r.units, r, k));
    }
    assert forall|i: int, e: EdgeView|
        0 <= i < t.jobs.len() && (#[trigger] t.jobs[i]).kind is Start && !is_requisite(
            g,
            t,
            t.jobs[i].unit,
        ) && #[trigger] g.edges.contains(e) && e.from == t.jobs[i].unit && transaction::asks_for(
            f,
            e.kind,
            e.to,
        ) implies transaction::has_job(t, e.to) by {
        let u = t.jobs[i].unit;
        let all = transaction::pulls(g, f, u, JobType::Start);
        let ends = graph::targets(g.edges, u);
        graph::forward_and_reverse_agree(g.edges, e);
        transaction::lemma_start_pulls(f, ends, e.kind, e.to);
        let j = choose|j: int|
            0 <= j < all.len() && ((#[trigger] all[j]).hard || f.loaded.contains(e.to))
                && all[j].unit == e.to;
        assert(r.units.contains(all[j].unit));
    }
    assert forall|i: int, b: NameView|
        0 <= i < t.jobs.len() && t.jobs[i].kind is Stop && !is_requisite(g, t, t.jobs[i].unit)
            && #[trigger] takes_along(g, JobType::Stop, t.jobs[i].unit, b) && f.loaded.contains(
            b,
        ) implies transaction::has_job(t, b) by {
        let u = t.jobs[i].unit;
        let all = transaction::pulls(g, f, u, JobType::Stop);
        lemma_pulled(g, f, JobType::Stop, u, b);
        let j = choose|j: int| 0 <= j < all.len() && (#[trigger] all[j]).unit == b;
        assert(r.units.contains(all[j].unit));
    }
}

// ---------------------------------------------------------------------
// Isolation
// ---------------------------------------------------------------------

/// Soft pulls do not fail.
proof fn lemma_all_soft(g: GraphView, f: ManagerFacts, mode: JobMode, q: Queued, ps: Seq<PullView>)
    requires
        forall|i: int| 0 <= i < ps.len() ==> !(#[trigger] ps[i]).hard,
    ensures
        transaction::add_pulls(g, f, mode, q, ps).1 is None,
    decreases ps.len(),
{
    if ps.len() > 0 {
        let q1 = transaction::add_job(g, f, mode, q, ps[0].unit, ps[0].kind).0;
        lemma_all_soft(g, f, mode, q1, ps.skip(1));
    }
}

proof fn lemma_isolated(
    g: GraphView,
    f: ManagerFacts,
    root: NameView,
    nodes: Seq<NameView>,
    n: NameView,
)
    requires
        nodes.contains(n),
        f.loaded.contains(n),
        !transaction::in_closure(g.edges, root, n),
        !g.exempt.contains(n),
    ensures
        exists|i: int|
            0 <= i < transaction::isolate_stops(g, f, root, nodes).len() && (
            #[trigger] transaction::isolate_stops(g, f, root, nodes)[i]).unit == n,
    decreases nodes.len(),
{
    let rest = nodes.drop_last();
    let a = transaction::isolate_stops(g, f, root, rest);
    let b = transaction::isolate_stops(g, f, root, nodes);
    let k = choose|k: int| 0 <= k < nodes.len() && nodes[k] == n;
    if k < rest.len() {
        assert(rest[k] == n);
        lemma_isolated(g, f, root, rest, n);
        let i = choose|i: int| 0 <= i < a.len() && (#[trigger] a[i]).unit == n;
        assert(b[i] == a[i]);
    } else {
        assert(b[b.len() - 1].unit == n);
    }
}

/// Isolating a unit gives a job to every loaded unit outside its dependency
/// closure, unless that ignores isolation.
pub proof fn isolating_reaches_the_rest(
    g: GraphView,
    f: ManagerFacts,
    next: u32,
    root: NameView,
    kind: JobType,
    n: NameView,
)
    requires
        transaction::built(g, f, next, root, kind, JobMode::Isolate) is Ok,
        !transaction::settled(f, root, kind),
        g.nodes.contains(n),
        f.loaded.contains(n),
        !transaction::in_closure(g.edges, root, n),
        !g.exempt.contains(n),
    ensures
        transaction::has_job(
            transaction::built(g, f, next, root, kind, JobMode::Isolate)->Ok_0,
            n,
        ),
{
    let none = transaction::none_queued();
    transaction::lemma_built(g, f, next, root, kind, JobMode::Isolate);
    transaction::lemma_add_job(g, f, JobMode::Isolate, none, root, kind);
    let q = transaction::add_job(g, f, JobMode::Isolate, none, root, kind).0;
    let ps = transaction::isolate_stops(g, f, root, g.nodes);
    transaction::lemma_add_pulls(g, f, JobMode::Replace, q, ps);
    lemma_isolate_stops(g, f, root, g.nodes);
    lemma_all_soft(g, f, JobMode::Replace, q, ps);
    lemma_isolated(g, f, root, g.nodes, n);
    let i = choose|i: int| 0 <= i < ps.len() && (#[trigger] ps[i]).unit == n;
    assert(f.loaded.contains(ps[i].unit));
}

// ---------------------------------------------------------------------
// Reasons
// ---------------------------------------------------------------------

/// Whether an edge joins two units.
pub open spec fn joined(g: GraphView, a: NameView, b: NameView) -> bool {
    exists|e: EdgeView| #[trigger]
        g.edges.contains(e) && ((e.from == a && e.to == b) || (e.from == b && e.to == a))
}

/// Whether a unit with a job is joined to another one with a job.
spec fn has_reason(g: GraphView, q: Queued, u: NameView) -> bool {
    exists|a: NameView| #[trigger] q.units.contains(a) && a != u && joined(g, a, u)
}

/// Whether that holds of every unit that has a job now and had none before.
spec fn reasoned(g: GraphView, q: Queued, r: Queued) -> bool {
    forall|u: NameView| #[trigger]
        r.units.contains(u) && !q.units.contains(u) ==> has_reason(g, r, u)
}

proof fn lemma_start_pulls_from(f: ManagerFacts, ends: Seq<(DepEdge, NameView)>)
    ensures
        forall|i: int|
            0 <= i < transaction::start_pulls(f, ends).len() ==> exists|e: DepEdge|
                ends.contains((e, (#[trigger] transaction::start_pulls(f, ends)[i]).unit)),
    decreases ends.len(),
{
    if ends.len() > 0 {
        let rest = ends.drop_last();
        lemma_start_pulls_from(f, rest);
        let a = transaction::start_pulls(f, rest);
        let b = transaction::start_pulls(f, ends);
        assert forall|i: int| 0 <= i < b.len() implies exists|e: DepEdge|
            ends.contains((e, (#[trigger] b[i]).unit)) by {
            if i < a.len() {
                assert(b[i] == a[i]);
                let e = choose|e: DepEdge| rest.contains((e, a[i].unit));
                let k = choose|k: int| 0 <= k < rest.len() && rest[k] == (e, a[i].unit);
                assert(ends[k] == (e, b[i].unit));
                assert(ends.contains((e, b[i].unit)));
            } else {
                assert(ends[ends.len() - 1] == (ends.last().0, b[i].unit));
                assert(ends.contains((ends.last().0, b[i].unit)));
            }
        }
    }
}

proof fn lemma_soft_pulls_from(
    f: ManagerFacts,
    ends: Seq<(DepEdge, NameView)>,
    one: DepEdge,
    two: DepEdge,
    kind: JobType,
)
    ensures
        forall|i: int|
            0 <= i < transaction::soft_pulls(f, ends, one, two, kind).len() ==> exists|e: DepEdge|
                ends.contains(
                    (e, (#[trigger] transaction::soft_pulls(f, ends, one, two, kind)[i]).unit),
                ),
    decreases ends.len(),
{
    if ends.len() > 0 {
        let rest = ends.drop_last();
        lemma_soft_pulls_from(f, rest, one, two, kind);
        let a = transaction::soft_pulls(f, rest, one, two, kind);
        let b = transaction::soft_pulls(f, ends, one, two, kind);
        assert forall|i: int| 0 <= i < b.len() implies exists|e: DepEdge|
            ends.contains((e, (#[trigger] b[i]).unit)) by {
            if i < a.len() {
                assert(b[i] == a[i]);
                let e = choose|e: DepEdge| rest.contains((e, a[i].unit));
                let k = choose|k: int| 0 <= k < rest.len() && rest[k] == (e, a[i].unit);
                assert(ends[k] == (e, b[i].unit));
                assert(ends.contains((e, b[i].unit)));
            } else {
                assert(ends[ends.len() - 1] == (ends.last().0, b[i].unit));
                assert(ends.contains((ends.last().0, b[i].unit)));
            }
        }
    }
}

/// What a job asks for is joined to its unit.
proof fn lemma_pulls_joined(g: GraphView, f: ManagerFacts, n: NameView, kind: JobType)
    ensures
        forall|i: int|
            0 <= i < transaction::pulls(g, f, n, kind).len() ==> joined(
                g,
                n,
                (#[trigger] transaction::pulls(g, f, n, kind)[i]).unit,
            ),
{
    let outgoing = graph::targets(g.edges, n);
    let incoming = graph::sources(g.edges, n);
    lemma_start_pulls_from(f, outgoing);
    lemma_soft_pulls_from(f, incoming, DepEdge::PartOf, DepEdge::PartOf, JobType::TryRestart);
    lemma_soft_pulls_from(f, incoming, DepEdge::BindsTo, DepEdge::PartOf, JobType::Stop);
    lemma_soft_pulls_from(
        f,
        outgoing,
        DepEdge::PropagatesStopTo,
        DepEdge::PropagatesStopTo,
        JobType::Stop,
    );
    lemma_soft_pulls_from(
        f,
        outgoing,
        DepEdge::PropagatesReloadTo,
        DepEdge::PropagatesReloadTo,
        JobType::Reload,
    );
    let ps = transaction::pulls(g, f, n, kind);
    assert forall|i: int| 0 <= i < ps.len() implies joined(g, n, (#[trigger] ps[i]).unit) by {
        let u = ps[i].unit;
        assert(exists|e: DepEdge| outgoing.contains((e, u)) || incoming.contains((e, u)));
        let e = choose|e: DepEdge| outgoing.contains((e, u)) || incoming.contains((e, u));
        let out = EdgeView { from: n, kind: e, to: u };
        let inward = EdgeView { from: u, kind: e, to: n };
        graph::forward_and_reverse_agree(g.edges, out);
        graph::forward_and_reverse_agree(g.edges, inward);
        assert(g.edges.contains(out) || g.edges.contains(inward));
    }
}

proof fn lemma_reason_job(
    g: GraphView,
    f: ManagerFacts,
    mode: JobMode,
    q: Queued,
    n: NameView,
    kind: JobType,
)
    requires
        transaction::sound(f, q),
    ensures
        ({
            let r = transaction::add_job(g, f, mode, q, n, kind).0;
            forall|u: NameView| #[trigger]
                r.units.contains(u) && !q.units.contains(u) && u != n ==> has_reason(g, r, u)
        }),
    decreases transaction::missing(g.nodes, q.units), 0nat, 1nat,
{
    if f.loaded.contains(n) {
        let k = transaction::collapsed(f, n, kind);
        let q1 = transaction::put(q, n, k);
        transaction::lemma_put(f, q, n, k);
        assert forall|u: NameView| #[trigger]
            q1.units.contains(u) && !q.units.contains(u) implies u == n by {
            let i = choose|i: int| 0 <= i < q1.units.len() && q1.units[i] == u;
            if i < q.units.len() {
                assert(q.units[i] == u);
            }
        }
        if !(q.units.contains(n) || mode is IgnoreDependencies || !g.nodes.contains(n)) {
            transaction::lemma_missing_less(g.nodes, q.units, n);
            lemma_pulls_joined(g, f, n, kind);
            lemma_reason_pulls(g, f, mode, q1, n, transaction::pulls(g, f, n, kind));
        }
    }
}

proof fn lemma_reason_pulls(
    g: GraphView,
    f: ManagerFacts,
    mode: JobMode,
    q: Queued,
    a: NameView,
    ps: Seq<PullView>,
)
    requires
        transaction::sound(f, q),
        q.units.contains(a),
        forall|i: int| 0 <= i < ps.len() ==> joined(g, a, (#[trigger] ps[i]).unit),
    ensures
        reasoned(g, q, transaction::add_pulls(g, f, mode, q, ps).0),
    decreases transaction::missing(g.nodes, q.units), ps.len(), 0nat,
{
    if ps.len() > 0 {
        let n = ps[0].unit;
        let (q1, e) = transaction::add_job(g, f, mode, q, n, ps[0].kind);
        lemma_reason_job(g, f, mode, q, n, ps[0].kind);
        transaction::lemma_add_job(g, f, mode, q, n, ps[0].kind);
        transaction::lemma_missing_fewer(g.nodes, q.units, q1.units);
        assert(q1.units.contains(a));
        assert forall|u: NameView| #[trigger]
            q1.units.contains(u) && !q.units.contains(u) implies has_reason(g, q1, u) by {
            if u == n {
                assert(joined(g, a, ps[0].unit));
                assert(a != u);
            }
        }
        if !(e is Some && ps[0].hard) {
            let rest = ps.skip(1);
            assert forall|i: int| 0 <= i < rest.len() implies joined(
                g,
                a,
                (#[trigger] rest[i]).unit,
            ) by {
                assert(rest[i] == ps[i + 1]);
            }
            lemma_reason_pulls(g, f, mode, q1, a, rest);
            transaction::lemma_add_pulls(g, f, mode, q1, rest);
            let r = transaction::add_pulls(g, f, mode, q, ps).0;
            assert(r == transaction::add_pulls(g, f, mode, q1, rest).0);
            assert forall|u: NameView| #[trigger]
                r.units.contains(u) && !q.units.contains(u) implies has_reason(g, r, u) by {
                if q1.units.contains(u) {
                    assert(has_reason(g, q1, u));
                    let x = choose|x: NameView| #[trigger]
                        q1.units.contains(x) && x != u && joined(g, x, u);
                    assert(r.units.contains(x));
                }
            }
        }
    }
}

/// No unit gets a job without a reason: but for the unit that was asked for,
/// each is joined by a dependency to another unit that gets one. (Isolating a
/// unit stops what has nothing to do with it.)
pub proof fn every_job_has_a_reason(
    g: GraphView,
    f: ManagerFacts,
    next: u32,
    root: NameView,
    kind: JobType,
    mode: JobMode,
    u: NameView,
)
    requires
        transaction::built(g, f, next, root, kind, mode) is Ok,
        !(mode is Isolate),
        transaction::has_job(transaction::built(g, f, next, root, kind, mode)->Ok_0, u),
        u != root,
    ensures
        exists|a: NameView|
            a != u && #[trigger] transaction::has_job(
                transaction::built(g, f, next, root, kind, mode)->Ok_0,
                a,
            ) && joined(g, a, u),
{
    let t = transaction::built(g, f, next, root, kind, mode)->Ok_0;
    transaction::lemma_built(g, f, next, root, kind, mode);
    let none = transaction::none_queued();
    lemma_reason_job(g, f, mode, none, root, kind);
    let q = transaction::expanded(g, f, root, kind, mode).0;
    assert(q.units.contains(u));
    assert(!none.units.contains(u));
    let a = choose|a: NameView| #[trigger] q.units.contains(a) && a != u && joined(g, a, u);
    assert(transaction::has_job(t, a));
}

} // verus!
