//! Why a unit gets the kind of job it gets.
//!
//! A start asks for starts of what the unit needs, for stops of what it
//! conflicts with, and for nothing else; a restart leaves alone what does not
//! run. These laws speak of the edges of the graph and of the jobs that come
//! out.

use crate::deps::graph;
use crate::deps::graph::{DepEdge, EdgeView, GraphView};
use crate::deps::job::{JobId, JobMode, JobType, JobView};
use crate::deps::transaction;
use crate::deps::transaction::{
    ManagerFacts, PullView, Queued, TransactionErrorView, TransactionView,
};
use crate::unit::name::NameView;
use vstd::prelude::*;

verus! {

// ---------------------------------------------------------------------
// Reasons
// ---------------------------------------------------------------------

/// Whether one of some units requires, is bound to, wants or upholds another.
pub open spec fn is_needed(g: GraphView, units: Seq<NameView>, w: NameView) -> bool {
    exists|e: EdgeView| #[trigger]
        g.edges.contains(e) && e.to == w && units.contains(e.from) && (e.kind is Requires || e.kind
            is BindsTo || e.kind is Wants || e.kind is Upholds)
}

/// Whether one of some units has another as its `Requisite=`.
pub open spec fn is_presupposed(g: GraphView, units: Seq<NameView>, w: NameView) -> bool {
    exists|e: EdgeView| #[trigger]
        g.edges.contains(e) && e.to == w && units.contains(e.from) && e.kind is Requisite
}

/// Whether a unit has to go because of one of some units: that conflicts with it
/// or propagates stops to it, or it is bound to that, or part of it.
pub open spec fn is_unwanted(g: GraphView, units: Seq<NameView>, w: NameView) -> bool {
    exists|e: EdgeView| #[trigger]
        g.edges.contains(e) && ((e.to == w && units.contains(e.from) && (e.kind is Conflicts
            || e.kind is PropagatesStopTo)) || (e.from == w && units.contains(e.to) && (e.kind
            is BindsTo || e.kind is PartOf)))
}

/// Whether a unit is part of one of some units.
pub open spec fn is_part(g: GraphView, units: Seq<NameView>, w: NameView) -> bool {
    exists|e: EdgeView| #[trigger]
        g.edges.contains(e) && e.from == w && units.contains(e.to) && e.kind is PartOf
}

/// Whether one of some units propagates reloads to another.
pub open spec fn is_refreshed(g: GraphView, units: Seq<NameView>, w: NameView) -> bool {
    exists|e: EdgeView| #[trigger]
        g.edges.contains(e) && e.to == w && units.contains(e.from) && e.kind is PropagatesReloadTo
}

/// Whether a unit lies outside of what another depends on, and minds isolation.
pub open spec fn is_outside(g: GraphView, root: NameView, w: NameView) -> bool {
    !transaction::in_closure(g.edges, root, w) && !g.exempt.contains(w)
}

/// Whether anything is to be stopped at all: that was asked for, or a unit is
/// isolated, stops, or one of some units conflicts with another.
pub open spec fn stops_begin(
    g: GraphView,
    units: Seq<NameView>,
    kind: JobType,
    mode: JobMode,
) -> bool {
    ||| kind is Stop
    ||| mode is Isolate
    ||| exists|e: EdgeView| #[trigger]
        g.edges.contains(e) && e.kind is Conflicts && units.contains(e.from)
}

/// Whether a kind of job has its reason: a unit is started where another needs
/// it, stopped where it has to go, restarted where it runs and is part of
/// another, and so on.
pub open spec fn has_grounds(
    g: GraphView,
    active: Set<NameView>,
    units: Seq<NameView>,
    isolated: Option<NameView>,
    stops: bool,
    w: NameView,
    kind: JobType,
) -> bool {
    match kind {
        JobType::Start | JobType::ReloadOrStart => is_needed(g, units, w),
        JobType::Restart => is_needed(g, units, w) || (active.contains(w) && is_part(g, units, w)),
        JobType::TryRestart => active.contains(w) && is_part(g, units, w),
        JobType::Stop => stops && (is_unwanted(g, units, w) || (isolated is Some && is_outside(
            g,
            isolated->Some_0,
            w,
        ))),
        JobType::Reload => is_refreshed(g, units, w),
        JobType::VerifyActive => !active.contains(w) && is_presupposed(g, units, w),
        JobType::Nop => (!active.contains(w) && is_part(g, units, w)) || (active.contains(w)
            && is_presupposed(g, units, w)),
    }
}

/// Whether that holds of every unit but one.
spec fn all_grounded(
    g: GraphView,
    f: ManagerFacts,
    units: Seq<NameView>,
    isolated: Option<NameView>,
    stops: bool,
    root: NameView,
    q: Queued,
) -> bool {
    forall|i: int|
        0 <= i < q.kinds.len() ==> q.units[i] == root || has_grounds(
            g,
            f.active,
            units,
            isolated,
            stops,
            q.units[i],
            #[trigger] q.kinds[i],
        )
}

/// Whether a job that is asked for has its reason.
spec fn pull_grounded(
    g: GraphView,
    units: Seq<NameView>,
    isolated: Option<NameView>,
    stops: bool,
    w: NameView,
    kind: JobType,
) -> bool {
    match kind {
        JobType::Start => is_needed(g, units, w),
        JobType::Stop => stops && (is_unwanted(g, units, w) || (isolated is Some && is_outside(
            g,
            isolated->Some_0,
            w,
        ))),
        JobType::VerifyActive => is_presupposed(g, units, w),
        JobType::TryRestart => is_part(g, units, w),
        JobType::Reload => is_refreshed(g, units, w),
        _ => false,
    }
}

spec fn pulls_grounded(
    g: GraphView,
    units: Seq<NameView>,
    isolated: Option<NameView>,
    stops: bool,
    ps: Seq<PullView>,
) -> bool {
    forall|i: int|
        0 <= i < ps.len() ==> pull_grounded(
            g,
            units,
            isolated,
            stops,
            (#[trigger] ps[i]).unit,
            ps[i].kind,
        )
}

proof fn lemma_start_grounds(
    g: GraphView,
    f: ManagerFacts,
    units: Seq<NameView>,
    isolated: Option<NameView>,
    stops: bool,
    n: NameView,
    ends: Seq<(DepEdge, NameView)>,
)
    requires
        units.contains(n),
        forall|e: EdgeView| #[trigger]
            g.edges.contains(e) && e.kind is Conflicts && units.contains(e.from) ==> stops,
        forall|k: int|
            0 <= k < ends.len() ==> g.edges.contains(
                EdgeView { from: n, kind: (#[trigger] ends[k]).0, to: ends[k].1 },
            ),
    ensures
        pulls_grounded(g, units, isolated, stops, transaction::start_pulls(f, ends)),
    decreases ends.len(),
{
    if ends.len() > 0 {
        let rest = ends.drop_last();
        assert forall|k: int| 0 <= k < rest.len() implies g.edges.contains(
            EdgeView { from: n, kind: (#[trigger] rest[k]).0, to: rest[k].1 },
        ) by {
            assert(rest[k] == ends[k]);
        }
        lemma_start_grounds(g, f, units, isolated, stops, n, rest);
        let last = ends[ends.len() - 1];
        let e = EdgeView { from: n, kind: last.0, to: last.1 };
        assert(g.edges.contains(e));
        let a = transaction::start_pulls(f, rest);
        let b = transaction::start_pulls(f, ends);
        assert forall|i: int| 0 <= i < b.len() implies pull_grounded(
            g,
            units,
            isolated,
            stops,
            (#[trigger] b[i]).unit,
            b[i].kind,
        ) by {
            if i < a.len() {
                assert(b[i] == a[i]);
            }
        }
    }
}

/// Soft pulls go to the ends of the edges of two kinds.
proof fn lemma_soft_ends(
    f: ManagerFacts,
    ends: Seq<(DepEdge, NameView)>,
    one: DepEdge,
    two: DepEdge,
    kind: JobType,
)
    ensures
        forall|i: int|
            0 <= i < transaction::soft_pulls(f, ends, one, two, kind).len() ==> {
                let p = #[trigger] transaction::soft_pulls(f, ends, one, two, kind)[i];
                p.kind == kind && (ends.contains((one, p.unit)) || ends.contains((two, p.unit)))
            },
    decreases ends.len(),
{
    if ends.len() > 0 {
        let rest = ends.drop_last();
        lemma_soft_ends(f, rest, one, two, kind);
        let a = transaction::soft_pulls(f, rest, one, two, kind);
        let b = transaction::soft_pulls(f, ends, one, two, kind);
        assert(ends =~= rest.push(ends.last()));
        assert forall|i: int| 0 <= i < b.len() implies {
            let p = #[trigger] b[i];
            p.kind == kind && (ends.contains((one, p.unit)) || ends.contains((two, p.unit)))
        } by {
            let p = b[i];
            vstd::seq_lib::lemma_seq_contains_after_push(rest, ends.last(), (one, p.unit));
            vstd::seq_lib::lemma_seq_contains_after_push(rest, ends.last(), (two, p.unit));
            if i < a.len() {
                assert(b[i] == a[i]);
            }
        }
    }
}

/// What a job asks for has its reason in the edges of its unit.
proof fn lemma_pulls_grounded(
    g: GraphView,
    f: ManagerFacts,
    units: Seq<NameView>,
    isolated: Option<NameView>,
    stops: bool,
    n: NameView,
    kind: JobType,
)
    requires
        units.contains(n),
        kind is Stop ==> stops,
        forall|e: EdgeView| #[trigger]
            g.edges.contains(e) && e.kind is Conflicts && units.contains(e.from) ==> stops,
    ensures
        pulls_grounded(g, units, isolated, stops, transaction::pulls(g, f, n, kind)),
{
    let outgoing = graph::targets(g.edges, n);
    let incoming = graph::sources(g.edges, n);
    assert forall|k: int| 0 <= k < outgoing.len() implies g.edges.contains(
        EdgeView { from: n, kind: (#[trigger] outgoing[k]).0, to: outgoing[k].1 },
    ) by {
        let e = EdgeView { from: n, kind: outgoing[k].0, to: outgoing[k].1 };
        graph::forward_and_reverse_agree(g.edges, e);
        assert(outgoing.contains((e.kind, e.to)));
    }
    lemma_start_grounds(g, f, units, isolated, stops, n, outgoing);
    let starts = transaction::start_pulls(f, outgoing);
    lemma_soft_ends(f, incoming, DepEdge::PartOf, DepEdge::PartOf, JobType::TryRestart);
    lemma_soft_ends(f, incoming, DepEdge::BindsTo, DepEdge::PartOf, JobType::Stop);
    lemma_soft_ends(
        f,
        outgoing,
        DepEdge::PropagatesStopTo,
        DepEdge::PropagatesStopTo,
        JobType::Stop,
    );
    lemma_soft_ends(
        f,
        outgoing,
        DepEdge::PropagatesReloadTo,
        DepEdge::PropagatesReloadTo,
        JobType::Reload,
    );
    let ps = transaction::pulls(g, f, n, kind);
    assert forall|i: int| 0 <= i < ps.len() implies pull_grounded(
        g,
        units,
        isolated,
        stops,
        (#[trigger] ps[i]).unit,
        ps[i].kind,
    ) by {
        let u = ps[i].unit;
        graph::forward_and_reverse_agree(
            g.edges,
            EdgeView { from: u, kind: DepEdge::PartOf, to: n },
        );
        graph::forward_and_reverse_agree(
            g.edges,
            EdgeView { from: u, kind: DepEdge::BindsTo, to: n },
        );
        graph::forward_and_reverse_agree(
            g.edges,
            EdgeView { from: n, kind: DepEdge::PropagatesStopTo, to: u },
        );
        graph::forward_and_reverse_agree(
            g.edges,
            EdgeView { from: n, kind: DepEdge::PropagatesReloadTo, to: u },
        );
        match kind {
            JobType::Start | JobType::ReloadOrStart => {
                assert(ps[i] == starts[i]);
            },
            JobType::Restart | JobType::TryRestart => {
                if i < starts.len() {
                    assert(ps[i] == starts[i]);
                }
            },
            _ => {},
        }
    }
}

proof fn lemma_put_grounded(
    g: GraphView,
    f: ManagerFacts,
    units: Seq<NameView>,
    isolated: Option<NameView>,
    stops: bool,
    root: NameView,
    q: Queued,
    n: NameView,
    kind: JobType,
)
    requires
        transaction::sound(f, q),
        all_grounded(g, f, units, isolated, stops, root, q),
        n == root || pull_grounded(g, units, isolated, stops, n, kind),
    ensures
        all_grounded(
            g,
            f,
            units,
            isolated,
            stops,
            root,
            transaction::put(q, n, transaction::collapsed(f, n, kind)),
        ),
{
    let k = transaction::collapsed(f, n, kind);
    let r = transaction::put(q, n, k);
    if q.units.contains(n) {
        let j = q.units.index_of(n);
        assert(q.units[j] == n);
        assert(n == root || has_grounds(g, f.active, units, isolated, stops, n, q.kinds[j]));
    }
    assert forall|i: int| 0 <= i < r.kinds.len() implies r.units[i] == root || has_grounds(
        g,
        f.active,
        units,
        isolated,
        stops,
        r.units[i],
        #[trigger] r.kinds[i],
    ) by {
        if i < q.kinds.len() {
            assert(q.units[i] == root || has_grounds(
                g,
                f.active,
                units,
                isolated,
                stops,
                q.units[i],
                q.kinds[i],
            ));
        }
    }
}

proof fn lemma_job_grounded(
    g: GraphView,
    f: ManagerFacts,
    mode: JobMode,
    units: Seq<NameView>,
    isolated: Option<NameView>,
    stops: bool,
    root: NameView,
    q: Queued,
    n: NameView,
    kind: JobType,
)
    requires
        transaction::sound(f, q),
        all_grounded(g, f, units, isolated, stops, root, q),
        n == root || pull_grounded(g, units, isolated, stops, n, kind),
        kind is Stop ==> stops,
        forall|e: EdgeView| #[trigger]
            g.edges.contains(e) && e.kind is Conflicts && units.contains(e.from) ==> stops,
        forall|u: NameView| #[trigger]
            transaction::add_job(g, f, mode, q, n, kind).0.units.contains(u) ==> units.contains(u),
    ensures
        all_grounded(
            g,
            f,
            units,
            isolated,
            stops,
            root,
            transaction::add_job(g, f, mode, q, n, kind).0,
        ),
    decreases transaction::missing(g.nodes, q.units), 0nat, 1nat,
{
    if f.loaded.contains(n) {
        let k = transaction::collapsed(f, n, kind);
        let q1 = transaction::put(q, n, k);
        transaction::lemma_put(f, q, n, k);
        transaction::lemma_add_job(g, f, mode, q, n, kind);
        lemma_put_grounded(g, f, units, isolated, stops, root, q, n, kind);
        if !(q.units.contains(n) || mode is IgnoreDependencies || !g.nodes.contains(n)) {
            transaction::lemma_missing_less(g.nodes, q.units, n);
            assert(units.contains(n));
            lemma_pulls_grounded(g, f, units, isolated, stops, n, kind);
            lemma_all_grounded(
                g,
                f,
                mode,
                units,
                isolated,
                stops,
                root,
                q1,
                transaction::pulls(g, f, n, kind),
            );
        }
    }
}

proof fn lemma_all_grounded(
    g: GraphView,
    f: ManagerFacts,
    mode: JobMode,
    units: Seq<NameView>,
    isolated: Option<NameView>,
    stops: bool,
    root: NameView,
    q: Queued,
    ps: Seq<PullView>,
)
    requires
        transaction::sound(f, q),
        all_grounded(g, f, units, isolated, stops, root, q),
        pulls_grounded(g, units, isolated, stops, ps),
        forall|e: EdgeView| #[trigger]
            g.edges.contains(e) && e.kind is Conflicts && units.contains(e.from) ==> stops,
        forall|u: NameView| #[trigger]
            transaction::add_pulls(g, f, mode, q, ps).0.units.contains(u) ==> units.contains(u),
    ensures
        all_grounded(
            g,
            f,
            units,
            isolated,
            stops,
            root,
            transaction::add_pulls(g, f, mode, q, ps).0,
        ),
    decreases transaction::missing(g.nodes, q.units), ps.len(), 0nat,
{
    if ps.len() > 0 {
        let n = ps[0].unit;
        let kind = ps[0].kind;
        let rest = ps.skip(1);
        let (q1, e) = transaction::add_job(g, f, mode, q, n, kind);
        let r = transaction::add_pulls(g, f, mode, q, ps).0;
        transaction::lemma_add_job(g, f, mode, q, n, kind);
        transaction::lemma_missing_fewer(g.nodes, q.units, q1.units);
        transaction::lemma_add_pulls(g, f, mode, q1, rest);
        assert(transaction::grown(q1, r));
        lemma_job_grounded(g, f, mode, units, isolated, stops, root, q, n, kind);
        if !(e is Some && ps[0].hard) {
            assert(r == transaction::add_pulls(g, f, mode, q1, rest).0);
            assert forall|i: int| 0 <= i < rest.len() implies pull_grounded(
                g,
                units,
                isolated,
                stops,
                (#[trigger] rest[i]).unit,
                rest[i].kind,
            ) by {
                assert(rest[i] == ps[i + 1]);
            }
            lemma_all_grounded(g, f, mode, units, isolated, stops, root, q1, rest);
        }
    }
}

proof fn lemma_isolate_grounds(
    g: GraphView,
    f: ManagerFacts,
    units: Seq<NameView>,
    root: NameView,
    nodes: Seq<NameView>,
)
    ensures
        pulls_grounded(
            g,
            units,
            Some(root),
            true,
            transaction::isolate_stops(g, f, root, nodes),
        ),
    decreases nodes.len(),
{
    if nodes.len() > 0 {
        lemma_isolate_grounds(g, f, units, root, nodes.drop_last());
        let a = transaction::isolate_stops(g, f, root, nodes.drop_last());
        let b = transaction::isolate_stops(g, f, root, nodes);
        assert forall|i: int| 0 <= i < b.len() implies pull_grounded(
            g,
            units,
            Some(root),
            true,
            (#[trigger] b[i]).unit,
            b[i].kind,
        ) by {
            if i < a.len() {
                assert(b[i] == a[i]);
            }
        }
    }
}

/// The units of a transaction.
pub open spec fn units_of(t: TransactionView) -> Seq<NameView> {
    t.jobs.map_values(|j: JobView| j.unit)
}

/// The unit that is isolated, stops, in that mode.
pub open spec fn isolated_unit(mode: JobMode, root: NameView) -> Option<NameView> {
    if mode is Isolate {
        Some(root)
    } else {
        None
    }
}

/// The kind of every job has its reason among the edges that join its unit to
/// others with jobs. So no unit is started that nothing needs, none is stopped
/// that nothing drives out, and no unit is restarted that does not run.
pub proof fn every_kind_has_a_reason(
    g: GraphView,
    f: ManagerFacts,
    next: u32,
    root: NameView,
    kind: JobType,
    mode: JobMode,
)
    requires
        transaction::built(g, f, next, root, kind, mode) is Ok,
    ensures
        ({
            let t = transaction::built(g, f, next, root, kind, mode)->Ok_0;
            forall|i: int|
                0 <= i < t.jobs.len() && (#[trigger] t.jobs[i]).unit != root ==> has_grounds(
                    g,
                    f.active,
                    units_of(t),
                    isolated_unit(mode, root),
                    stops_begin(g, units_of(t), kind, mode),
                    t.jobs[i].unit,
                    t.jobs[i].kind,
                )
        }),
{
    let t = transaction::built(g, f, next, root, kind, mode)->Ok_0;
    if !transaction::settled(f, root, kind) {
        transaction::lemma_built(g, f, next, root, kind, mode);
        let none = transaction::none_queued();
        let iso = isolated_unit(mode, root);
        let q = transaction::add_job(g, f, mode, none, root, kind).0;
        let r = transaction::expanded(g, f, root, kind, mode).0;
        let us = transaction::run_order(g, mode, r.units)->Ok_0;
        let units = units_of(t);
        assert forall|u: NameView| #[trigger] r.units.contains(u) implies units.contains(u) by {
            assert(transaction::has_job(t, u));
            let i = choose|i: int| 0 <= i < t.jobs.len() && (#[trigger] t.jobs[i]).unit == u;
            assert(units[i] == u);
        }
        transaction::lemma_add_job(g, f, mode, none, root, kind);
        let ps = transaction::isolate_stops(g, f, root, g.nodes);
        transaction::lemma_add_pulls(g, f, JobMode::Replace, q, ps);
        assert(transaction::grown(q, r));
        let stops = stops_begin(g, units, kind, mode);
        lemma_job_grounded(g, f, mode, units, iso, stops, root, none, root, kind);
        if mode is Isolate {
            lemma_isolate_grounds(g, f, units, root, g.nodes);
            lemma_all_grounded(g, f, JobMode::Replace, units, iso, stops, root, q, ps);
        }
        assert forall|i: int| 0 <= i < t.jobs.len() && (#[trigger] t.jobs[i]).unit
            != root implies has_grounds(
            g,
            f.active,
            units,
            iso,
            stops,
            t.jobs[i].unit,
            t.jobs[i].kind,
        ) by {
            assert(us.contains(us[i]));
            let k = r.units.index_of(us[i]);
            assert(r.units[k] == us[i] && t.jobs[i].kind == r.kinds[k]);
        }
    }
}

// ---------------------------------------------------------------------
// Units that do not run
// ---------------------------------------------------------------------

/// Trying to restart a unit that does not run comes to nothing: its job is the
/// only one, and does nothing.
pub proof fn trying_to_restart_leaves_an_idle_unit_alone(
    g: GraphView,
    f: ManagerFacts,
    next: u32,
    root: NameView,
    mode: JobMode,
)
    requires
        transaction::built(g, f, next, root, JobType::TryRestart, mode) is Ok,
        !f.active.contains(root),
        !(mode is Isolate),
    ensures
        ({
            let t = transaction::built(g, f, next, root, JobType::TryRestart, mode)->Ok_0;
            t.jobs.len() == 1 && t.jobs[0].unit == root && t.jobs[0].kind is Nop
        }),
{
    let kind = JobType::TryRestart;
    let t = transaction::built(g, f, next, root, kind, mode)->Ok_0;
    transaction::lemma_built(g, f, next, root, kind, mode);
    let none = transaction::none_queued();
    let q = transaction::add_job(g, f, mode, none, root, kind).0;
    let us = transaction::run_order(g, mode, q.units)->Ok_0;
    if g.nodes.contains(root) {
        transaction::lemma_missing_less(g.nodes, none.units, root);
    }
    assert(transaction::pulls(g, f, root, kind) =~= seq![]);
    assert(q.units =~= seq![root]);
    assert(q.kinds =~= seq![JobType::Nop]);
    assert(us.contains(us[0]));
    assert(q.units.contains(us[0]));
    assert(q.units.index_of(root) == 0);
}

/// A restart reaches every loaded unit that is part of the restarted one.
pub proof fn parts_get_jobs(
    g: GraphView,
    f: ManagerFacts,
    next: u32,
    root: NameView,
    kind: JobType,
    mode: JobMode,
    w: NameView,
)
    requires
        graph::is_closed(g),
        kind is Restart || (kind is TryRestart && f.active.contains(root)),
        transaction::built(g, f, next, root, kind, mode) is Ok,
        !(mode is IgnoreDependencies),
        f.loaded.contains(w),
        g.edges.contains(EdgeView { from: w, kind: DepEdge::PartOf, to: root }),
    ensures
        transaction::has_job(transaction::built(g, f, next, root, kind, mode)->Ok_0, w),
{
    transaction::lemma_built(g, f, next, root, kind, mode);
    let e = EdgeView { from: w, kind: DepEdge::PartOf, to: root };
    let outgoing = graph::targets(g.edges, root);
    let incoming = graph::sources(g.edges, root);
    graph::forward_and_reverse_agree(g.edges, e);
    let k = choose|k: int| 0 <= k < g.edges.len() && g.edges[k] == e;
    assert(g.nodes.contains(g.edges[k].to));
    let starts = transaction::start_pulls(f, outgoing);
    let parts = transaction::soft_pulls(
        f,
        incoming,
        DepEdge::PartOf,
        DepEdge::PartOf,
        JobType::TryRestart,
    );
    let ps = transaction::pulls(g, f, root, kind);
    lemma_part_pulled(f, incoming, w);
    let i = choose|i: int| 0 <= i < parts.len() && (#[trigger] parts[i]).unit == w;
    assert(ps[starts.len() + i] == parts[i]);
    let none = transaction::none_queued();
    let c = transaction::collapsed(f, root, kind);
    let q1 = transaction::put(none, root, c);
    transaction::lemma_put(f, none, root, c);
    transaction::lemma_add_pulls(g, f, mode, q1, ps);
    let q = transaction::add_job(g, f, mode, none, root, kind).0;
    assert(!none.units.contains(root));
    transaction::lemma_missing_less(g.nodes, none.units, root);
    assert(q == transaction::add_pulls(g, f, mode, q1, ps).0);
    assert(q.units.contains(ps[starts.len() + i].unit));
    if mode is Isolate {
        transaction::lemma_add_job(g, f, mode, none, root, kind);
        transaction::lemma_add_pulls(
            g,
            f,
            JobMode::Replace,
            q,
            transaction::isolate_stops(g, f, root, g.nodes),
        );
    }
}

proof fn lemma_part_pulled(f: ManagerFacts, ends: Seq<(DepEdge, NameView)>, w: NameView)
    requires
        ends.contains((DepEdge::PartOf, w)),
        f.loaded.contains(w),
    ensures
        exists|i: int|
            0 <= i < transaction::soft_pulls(
                f,
                ends,
                DepEdge::PartOf,
                DepEdge::PartOf,
                JobType::TryRestart,
            ).len() && (#[trigger] transaction::soft_pulls(
                f,
                ends,
                DepEdge::PartOf,
                DepEdge::PartOf,
                JobType::TryRestart,
            )[i]).unit == w,
    decreases ends.len(),
{
    let one = DepEdge::PartOf;
    let kind = JobType::TryRestart;
    let rest = ends.drop_last();
    let a = transaction::soft_pulls(f, rest, one, one, kind);
    let b = transaction::soft_pulls(f, ends, one, one, kind);
    let k = choose|k: int| 0 <= k < ends.len() && ends[k] == (one, w);
    if k < rest.len() {
        assert(rest[k] == (one, w));
        lemma_part_pulled(f, rest, w);
        let i = choose|i: int| 0 <= i < a.len() && (#[trigger] a[i]).unit == w;
        assert(b[i] == a[i]);
    } else {
        assert(b[b.len() - 1].unit == w);
    }
}

/// Whatever is asked for, a unit that does not run and that nothing with a job
/// needs is not started: being part of what is restarted does not start it.
pub proof fn idle_units_are_started_only_where_needed(
    g: GraphView,
    f: ManagerFacts,
    next: u32,
    root: NameView,
    kind: JobType,
    mode: JobMode,
    w: NameView,
)
    requires
        transaction::built(g, f, next, root, kind, mode) is Ok,
        w != root,
        !f.active.contains(w),
        !is_needed(
            g,
            units_of(transaction::built(g, f, next, root, kind, mode)->Ok_0),
            w,
        ),
    ensures
        ({
            let t = transaction::built(g, f, next, root, kind, mode)->Ok_0;
            forall|i: int|
                0 <= i < t.jobs.len() && (#[trigger] t.jobs[i]).unit == w ==> !(t.jobs[i].kind
                    is Start) && !(t.jobs[i].kind is Restart) && !(t.jobs[i].kind is TryRestart)
                    && !(t.jobs[i].kind is ReloadOrStart)
        }),
{
    every_kind_has_a_reason(g, f, next, root, kind, mode);
}

/// Restarting a unit leaves alone what is part of it, does not run, and is joined
/// to nothing else: it gets a job, and the job does nothing. Nothing that gets a
/// job conflicts with another unit here, so that no stop is in play.
pub proof fn restarting_leaves_idle_parts_alone(
    g: GraphView,
    f: ManagerFacts,
    next: u32,
    root: NameView,
    kind: JobType,
    mode: JobMode,
    w: NameView,
)
    requires
        graph::is_closed(g),
        kind is Restart || (kind is TryRestart && f.active.contains(root)),
        transaction::built(g, f, next, root, kind, mode) is Ok,
        !(mode is IgnoreDependencies),
        !(mode is Isolate),
        w != root,
        f.loaded.contains(w),
        !f.active.contains(w),
        g.edges.contains(EdgeView { from: w, kind: DepEdge::PartOf, to: root }),
        forall|e: EdgeView| #[trigger] g.edges.contains(e) && e.to == w ==> !orders_a_job(e.kind),
        forall|e: EdgeView| #[trigger]
            g.edges.contains(e) && e.kind is Conflicts ==> !transaction::has_job(
                transaction::built(g, f, next, root, kind, mode)->Ok_0,
                e.from,
            ),
    ensures
        ({
            let t = transaction::built(g, f, next, root, kind, mode)->Ok_0;
            &&& transaction::has_job(t, w)
            &&& forall|i: int|
                0 <= i < t.jobs.len() && (#[trigger] t.jobs[i]).unit == w ==> t.jobs[i].kind is Nop
        }),
{
    let t = transaction::built(g, f, next, root, kind, mode)->Ok_0;
    every_kind_has_a_reason(g, f, next, root, kind, mode);
    parts_get_jobs(g, f, next, root, kind, mode, w);
    assert forall|e: EdgeView| #[trigger]
        g.edges.contains(e) && e.kind is Conflicts implies !units_of(t).contains(e.from) by {
        if units_of(t).contains(e.from) {
            let k = choose|k: int| 0 <= k < units_of(t).len() && units_of(t)[k] == e.from;
            assert(t.jobs[k].unit == e.from);
        }
    }
    assert(!stops_begin(g, units_of(t), kind, mode));
}

/// Whether an edge can give the unit that it leads to a job.
pub open spec fn orders_a_job(kind: DepEdge) -> bool {
    kind is Requires || kind is BindsTo || kind is Wants || kind is Upholds || kind is Requisite
        || kind is Conflicts || kind is PropagatesStopTo || kind is PropagatesReloadTo
}

// ---------------------------------------------------------------------
// The unit that was asked for
// ---------------------------------------------------------------------

/// What a request for a unit turns into where other units have a say in it too.
spec fn still(asked: JobType, kind: JobType) -> bool {
    match asked {
        JobType::Start => kind is Start || kind is Restart,
        JobType::Restart => kind is Restart,
        _ => true,
    }
}

/// Whether a kind of job can come up where a unit is started or restarted.
spec fn comes_up(kind: JobType) -> bool {
    kind is Start || kind is Restart || kind is Stop || kind is VerifyActive || kind is TryRestart
}

spec fn all_come_up(ps: Seq<PullView>) -> bool {
    forall|i: int| 0 <= i < ps.len() ==> comes_up((#[trigger] ps[i]).kind)
}

proof fn lemma_start_come_up(f: ManagerFacts, ends: Seq<(DepEdge, NameView)>)
    ensures
        all_come_up(transaction::start_pulls(f, ends)),
    decreases ends.len(),
{
    if ends.len() > 0 {
        lemma_start_come_up(f, ends.drop_last());
    }
}

proof fn lemma_come_up(g: GraphView, f: ManagerFacts, n: NameView, kind: JobType)
    requires
        comes_up(kind),
    ensures
        all_come_up(transaction::pulls(g, f, n, kind)),
{
    let outgoing = graph::targets(g.edges, n);
    let incoming = graph::sources(g.edges, n);
    lemma_start_come_up(f, outgoing);
    lemma_soft_ends(f, incoming, DepEdge::PartOf, DepEdge::PartOf, JobType::TryRestart);
    lemma_soft_ends(f, incoming, DepEdge::BindsTo, DepEdge::PartOf, JobType::Stop);
    lemma_soft_ends(
        f,
        outgoing,
        DepEdge::PropagatesStopTo,
        DepEdge::PropagatesStopTo,
        JobType::Stop,
    );
    let starts = transaction::start_pulls(f, outgoing);
    let ps = transaction::pulls(g, f, n, kind);
    assert forall|i: int| 0 <= i < ps.len() implies comes_up((#[trigger] ps[i]).kind) by {
        if i < starts.len() && !(kind is Stop) {
            assert(ps[i] == starts[i]);
        }
    }
}

proof fn lemma_isolate_come_up(
    g: GraphView,
    f: ManagerFacts,
    root: NameView,
    nodes: Seq<NameView>,
)
    ensures
        all_come_up(transaction::isolate_stops(g, f, root, nodes)),
    decreases nodes.len(),
{
    if nodes.len() > 0 {
        lemma_isolate_come_up(g, f, root, nodes.drop_last());
    }
}

proof fn lemma_still_job(
    g: GraphView,
    f: ManagerFacts,
    mode: JobMode,
    q: Queued,
    n: NameView,
    kind: JobType,
    asked: JobType,
)
    requires
        transaction::sound(f, q),
        q.units.len() > 0,
        still(asked, q.kinds[0]),
        asked is Start || asked is Restart,
        comes_up(kind),
    ensures
        ({
            let r = transaction::add_job(g, f, mode, q, n, kind).0;
            r.units.len() > 0 && r.units[0] == q.units[0] && still(asked, r.kinds[0])
        }),
    decreases transaction::missing(g.nodes, q.units), 0nat, 1nat,
{
    if f.loaded.contains(n) {
        let k = transaction::collapsed(f, n, kind);
        let q1 = transaction::put(q, n, k);
        transaction::lemma_put(f, q, n, k);
        if q.units.contains(n) {
            let j = q.units.index_of(n);
            assert(q.units[j] == n);
        }
        if !(q.units.contains(n) || mode is IgnoreDependencies || !g.nodes.contains(n)) {
            transaction::lemma_missing_less(g.nodes, q.units, n);
            lemma_come_up(g, f, n, kind);
            lemma_still_pulls(g, f, mode, q1, transaction::pulls(g, f, n, kind), asked);
        }
    }
}

proof fn lemma_still_pulls(
    g: GraphView,
    f: ManagerFacts,
    mode: JobMode,
    q: Queued,
    ps: Seq<PullView>,
    asked: JobType,
)
    requires
        transaction::sound(f, q),
        q.units.len() > 0,
        still(asked, q.kinds[0]),
        asked is Start || asked is Restart,
        all_come_up(ps),
    ensures
        ({
            let r = transaction::add_pulls(g, f, mode, q, ps).0;
            r.units.len() > 0 && r.units[0] == q.units[0] && still(asked, r.kinds[0])
        }),
    decreases transaction::missing(g.nodes, q.units), ps.len(), 0nat,
{
    if ps.len() > 0 {
        let (q1, e) = transaction::add_job(g, f, mode, q, ps[0].unit, ps[0].kind);
        lemma_still_job(g, f, mode, q, ps[0].unit, ps[0].kind, asked);
        transaction::lemma_add_job(g, f, mode, q, ps[0].unit, ps[0].kind);
        transaction::lemma_missing_fewer(g.nodes, q.units, q1.units);
        if !(e is Some && ps[0].hard) {
            let rest = ps.skip(1);
            assert forall|i: int| 0 <= i < rest.len() implies comes_up(
                (#[trigger] rest[i]).kind,
            ) by {
                assert(rest[i] == ps[i + 1]);
            }
            lemma_still_pulls(g, f, mode, q1, rest, asked);
        }
    }
}

/// A request to start a unit ends in a job that starts it, and one to restart it
/// in a restart, whatever else the other units ask of it.
pub proof fn a_request_is_honoured(
    g: GraphView,
    f: ManagerFacts,
    next: u32,
    root: NameView,
    kind: JobType,
    mode: JobMode,
)
    requires
        transaction::built(g, f, next, root, kind, mode) is Ok,
        kind is Start || kind is Restart,
    ensures
        ({
            let t = transaction::built(g, f, next, root, kind, mode)->Ok_0;
            &&& transaction::has_job(t, root)
            &&& forall|i: int|
                0 <= i < t.jobs.len() && (#[trigger] t.jobs[i]).unit == root ==> t.jobs[i].kind
                    is Restart || (kind is Start && t.jobs[i].kind is Start)
        }),
{
    let t = transaction::built(g, f, next, root, kind, mode)->Ok_0;
    transaction::lemma_built(g, f, next, root, kind, mode);
    let none = transaction::none_queued();
    let q = transaction::add_job(g, f, mode, none, root, kind).0;
    let r = transaction::expanded(g, f, root, kind, mode).0;
    let us = transaction::run_order(g, mode, r.units)->Ok_0;
    let q1 = transaction::put(none, root, kind);
    transaction::lemma_put(f, none, root, kind);
    assert(!none.units.contains(root));
    assert(q1.units[0] == root && q1.kinds[0] == kind);
    if !(mode is IgnoreDependencies) && g.nodes.contains(root) {
        transaction::lemma_missing_less(g.nodes, none.units, root);
        lemma_come_up(g, f, root, kind);
        lemma_still_pulls(g, f, mode, q1, transaction::pulls(g, f, root, kind), kind);
    }
    transaction::lemma_add_job(g, f, mode, none, root, kind);
    if mode is Isolate {
        lemma_isolate_come_up(g, f, root, g.nodes);
        lemma_still_pulls(
            g,
            f,
            JobMode::Replace,
            q,
            transaction::isolate_stops(g, f, root, g.nodes),
            kind,
        );
    }
    assert forall|i: int| 0 <= i < t.jobs.len() && (#[trigger] t.jobs[i]).unit
        == root implies still(kind, t.jobs[i].kind) by {
        assert(us.contains(us[i]));
        let k = r.units.index_of(us[i]);
        assert(r.units[k] == us[i] && t.jobs[i].kind == r.kinds[k]);
        assert(r.units[0] == root);
        assert(k == 0);
    }
}

// ---------------------------------------------------------------------
// Failures
// ---------------------------------------------------------------------

/// Whether a unit requires another, is bound to it or has it as `Requisite=`.
pub open spec fn hard_step(edges: Seq<EdgeView>, a: NameView, b: NameView) -> bool {
    exists|e: EdgeView| #[trigger]
        edges.contains(e) && e.from == a && e.to == b && (e.kind is Requires || e.kind is BindsTo
            || e.kind is Requisite)
}

/// A walk along requirements, bindings and requisites.
pub open spec fn is_hard_walk(edges: Seq<EdgeView>, s: Seq<NameView>) -> bool {
    &&& s.len() >= 1
    &&& forall|i: int| 0 <= i < s.len() - 1 ==> hard_step(edges, #[trigger] s[i], s[i + 1])
}

spec fn hard_reach(edges: Seq<EdgeView>, a: NameView, b: NameView) -> bool {
    exists|s: Seq<NameView>| #[trigger] is_hard_walk(edges, s) && s[0] == a && s.last() == b
}

proof fn lemma_hard_reach_refl(edges: Seq<EdgeView>, a: NameView)
    ensures
        hard_reach(edges, a, a),
{
    let s = seq![a];
    assert(is_hard_walk(edges, s));
    assert(s[0] == a && s.last() == a);
}

proof fn lemma_hard_reach_step(edges: Seq<EdgeView>, a: NameView, b: NameView, c: NameView)
    requires
        hard_step(edges, a, b),
        hard_reach(edges, b, c),
    ensures
        hard_reach(edges, a, c),
{
    let s = choose|s: Seq<NameView>| #[trigger]
        is_hard_walk(edges, s) && s[0] == b && s.last() == c;
    let t = seq![a] + s;
    assert forall|i: int| 0 <= i < t.len() - 1 implies hard_step(edges, #[trigger] t[i], t[i + 1]) by {
        if i > 0 {
            assert(t[i] == s[i - 1] && t[i + 1] == s[i]);
            assert(hard_step(edges, s[i - 1], s[i - 1 + 1]));
        }
    }
    assert(is_hard_walk(edges, t));
    assert(t[0] == a && t.last() == c);
}

/// Whether hard pulls follow hard edges of a unit, or go to a loaded unit and
/// stop it.
spec fn hard_pulls_from(g: GraphView, f: ManagerFacts, n: NameView, ps: Seq<PullView>) -> bool {
    forall|i: int|
        0 <= i < ps.len() && (#[trigger] ps[i]).hard ==> hard_step(g.edges, n, ps[i].unit) || (
        ps[i].kind is Stop && f.loaded.contains(ps[i].unit))
}

proof fn lemma_start_pulls_hard(
    g: GraphView,
    f: ManagerFacts,
    n: NameView,
    ends: Seq<(DepEdge, NameView)>,
)
    requires
        forall|k: int|
            0 <= k < ends.len() ==> g.edges.contains(
                EdgeView { from: n, kind: (#[trigger] ends[k]).0, to: ends[k].1 },
            ),
    ensures
        hard_pulls_from(g, f, n, transaction::start_pulls(f, ends)),
    decreases ends.len(),
{
    if ends.len() > 0 {
        let rest = ends.drop_last();
        assert forall|k: int| 0 <= k < rest.len() implies g.edges.contains(
            EdgeView { from: n, kind: (#[trigger] rest[k]).0, to: rest[k].1 },
        ) by {
            assert(rest[k] == ends[k]);
        }
        lemma_start_pulls_hard(g, f, n, rest);
        let last = ends[ends.len() - 1];
        assert(g.edges.contains(EdgeView { from: n, kind: last.0, to: last.1 }));
        let a = transaction::start_pulls(f, rest);
        let b = transaction::start_pulls(f, ends);
        assert forall|i: int| 0 <= i < b.len() && (#[trigger] b[i]).hard implies hard_step(
            g.edges,
            n,
            b[i].unit,
        ) || (b[i].kind is Stop && f.loaded.contains(b[i].unit)) by {
            if i < a.len() {
                assert(b[i] == a[i]);
            }
        }
    }
}

proof fn lemma_soft_pulls_soft(
    f: ManagerFacts,
    ends: Seq<(DepEdge, NameView)>,
    one: DepEdge,
    two: DepEdge,
    kind: JobType,
)
    ensures
        forall|i: int|
            0 <= i < transaction::soft_pulls(f, ends, one, two, kind).len() ==> !(
            #[trigger] transaction::soft_pulls(f, ends, one, two, kind)[i]).hard,
    decreases ends.len(),
{
    if ends.len() > 0 {
        lemma_soft_pulls_soft(f, ends.drop_last(), one, two, kind);
        let a = transaction::soft_pulls(f, ends.drop_last(), one, two, kind);
        let b = transaction::soft_pulls(f, ends, one, two, kind);
        assert forall|i: int| 0 <= i < b.len() implies !(#[trigger] b[i]).hard by {
            if i < a.len() {
                assert(b[i] == a[i]);
            }
        }
    }
}

proof fn lemma_hard_pulls(g: GraphView, f: ManagerFacts, n: NameView, kind: JobType)
    ensures
        hard_pulls_from(g, f, n, transaction::pulls(g, f, n, kind)),
        kind is Stop ==> forall|i: int|
            0 <= i < transaction::pulls(g, f, n, kind).len() ==> !(#[trigger] transaction::pulls(
                g,
                f,
                n,
                kind,
            )[i]).hard,
{
    let outgoing = graph::targets(g.edges, n);
    let incoming = graph::sources(g.edges, n);
    assert forall|k: int| 0 <= k < outgoing.len() implies g.edges.contains(
        EdgeView { from: n, kind: (#[trigger] outgoing[k]).0, to: outgoing[k].1 },
    ) by {
        let e = EdgeView { from: n, kind: outgoing[k].0, to: outgoing[k].1 };
        graph::forward_and_reverse_agree(g.edges, e);
        assert(outgoing.contains((e.kind, e.to)));
    }
    lemma_start_pulls_hard(g, f, n, outgoing);
    lemma_soft_pulls_soft(f, incoming, DepEdge::PartOf, DepEdge::PartOf, JobType::TryRestart);
    lemma_soft_pulls_soft(f, incoming, DepEdge::BindsTo, DepEdge::PartOf, JobType::Stop);
    lemma_soft_pulls_soft(
        f,
        outgoing,
        DepEdge::PropagatesStopTo,
        DepEdge::PropagatesStopTo,
        JobType::Stop,
    );
    lemma_soft_pulls_soft(
        f,
        outgoing,
        DepEdge::PropagatesReloadTo,
        DepEdge::PropagatesReloadTo,
        JobType::Reload,
    );
    let starts = transaction::start_pulls(f, outgoing);
    let ps = transaction::pulls(g, f, n, kind);
    assert forall|i: int| 0 <= i < ps.len() && (#[trigger] ps[i]).hard implies hard_step(
        g.edges,
        n,
        ps[i].unit,
    ) || (ps[i].kind is Stop && f.loaded.contains(ps[i].unit)) by {
        if i < starts.len() && !(kind is Stop) && !(kind is Reload) {
            assert(ps[i] == starts[i]);
        }
    }
}

proof fn lemma_failed_job(
    g: GraphView,
    f: ManagerFacts,
    mode: JobMode,
    q: Queued,
    n: NameView,
    kind: JobType,
)
    requires
        transaction::sound(f, q),
    ensures
        ({
            let e = transaction::add_job(g, f, mode, q, n, kind).1;
            e is Some ==> !f.loaded.contains(e->Some_0) && hard_reach(g.edges, n, e->Some_0) && !(
            kind is Stop && f.loaded.contains(n))
        }),
    decreases transaction::missing(g.nodes, q.units), 0nat, 1nat,
{
    if !f.loaded.contains(n) {
        lemma_hard_reach_refl(g.edges, n);
    } else if !(q.units.contains(n) || mode is IgnoreDependencies || !g.nodes.contains(n)) {
        let k = transaction::collapsed(f, n, kind);
        let q1 = transaction::put(q, n, k);
        transaction::lemma_put(f, q, n, k);
        transaction::lemma_missing_less(g.nodes, q.units, n);
        lemma_hard_pulls(g, f, n, kind);
        lemma_failed_pulls(g, f, mode, q1, n, transaction::pulls(g, f, n, kind));
    }
}

proof fn lemma_failed_pulls(
    g: GraphView,
    f: ManagerFacts,
    mode: JobMode,
    q: Queued,
    n: NameView,
    ps: Seq<PullView>,
)
    requires
        transaction::sound(f, q),
        hard_pulls_from(g, f, n, ps),
    ensures
        ({
            let e = transaction::add_pulls(g, f, mode, q, ps).1;
            e is Some ==> !f.loaded.contains(e->Some_0) && hard_reach(g.edges, n, e->Some_0)
                && exists|i: int| 0 <= i < ps.len() && (#[trigger] ps[i]).hard
        }),
    decreases transaction::missing(g.nodes, q.units), ps.len(), 0nat,
{
    if ps.len() > 0 {
        let (q1, e) = transaction::add_job(g, f, mode, q, ps[0].unit, ps[0].kind);
        lemma_failed_job(g, f, mode, q, ps[0].unit, ps[0].kind);
        transaction::lemma_add_job(g, f, mode, q, ps[0].unit, ps[0].kind);
        transaction::lemma_missing_fewer(g.nodes, q.units, q1.units);
        if e is Some && ps[0].hard {
            lemma_hard_reach_step(g.edges, n, ps[0].unit, e->Some_0);
        } else {
            let rest = ps.skip(1);
            assert forall|i: int| 0 <= i < rest.len() && (#[trigger] rest[i]).hard implies hard_step(
                g.edges,
                n,
                rest[i].unit,
            ) || (rest[i].kind is Stop && f.loaded.contains(rest[i].unit)) by {
                assert(rest[i] == ps[i + 1]);
            }
            lemma_failed_pulls(g, f, mode, q1, n, rest);
            if transaction::add_pulls(g, f, mode, q, ps).1 is Some {
                let i = choose|i: int| 0 <= i < rest.len() && (#[trigger] rest[i]).hard;
                assert(ps[i + 1].hard);
            }
        }
    }
}

/// A request fails for want of a unit only where that is not loaded, and is the
/// unit that was asked for or is required along a walk of hard dependencies from
/// it: a unit that is merely wanted never fails a request.
pub proof fn only_hard_dependencies_fail_a_request(
    g: GraphView,
    f: ManagerFacts,
    next: u32,
    root: NameView,
    kind: JobType,
    mode: JobMode,
)
    ensures
        transaction::built(g, f, next, root, kind, mode) matches Err(
            TransactionErrorView::NotLoaded(n),
        ) ==> !f.loaded.contains(n) && exists|s: Seq<NameView>| #[trigger]
            is_hard_walk(g.edges, s) && s[0] == root && s.last() == n,
{
    if !f.loaded.contains(root) {
        lemma_hard_reach_refl(g.edges, root);
    }
    lemma_failed_job(g, f, mode, transaction::none_queued(), root, kind);
}

/// A request for a unit that is not loaded fails, unless there is nothing to do;
/// so does one that starts a unit with a hard dependency that is not loaded.
pub proof fn hard_dependencies_must_be_loaded(
    g: GraphView,
    f: ManagerFacts,
    next: u32,
    root: NameView,
    kind: JobType,
    mode: JobMode,
    e: EdgeView,
)
    requires
        graph::is_closed(g),
        transaction::built(g, f, next, root, kind, mode) is Ok,
        !(kind is VerifyActive && f.active.contains(root)),
    ensures
        f.loaded.contains(root),
        g.edges.contains(e) && e.from == root && (e.kind is Requires || e.kind is BindsTo || e.kind
            is Requisite) && (kind is Start || kind is Restart || kind is ReloadOrStart) && !(mode
            is IgnoreDependencies) ==> f.loaded.contains(e.to),
{
    transaction::one_job_per_loaded_unit(g, f, next, root, kind, mode);
    transaction::lemma_built(g, f, next, root, kind, mode);
    let q = transaction::expanded(g, f, root, kind, mode).0;
    assert(q.units.contains(root));
    if g.edges.contains(e) && e.from == root && (e.kind is Requires || e.kind is BindsTo || e.kind
        is Requisite) && (kind is Start || kind is Restart || kind is ReloadOrStart) && !(mode
        is IgnoreDependencies) {
        assert(e == EdgeView { from: root, kind: e.kind, to: e.to });
        transaction::dependencies_get_jobs(g, f, next, root, kind, mode, e.kind, e.to);
        assert(q.units.contains(e.to));
    }
}

// ---------------------------------------------------------------------
// Isolation
// ---------------------------------------------------------------------

/// Whether a unit depends on another, or is ordered against it.
pub open spec fn leans_on(edges: Seq<EdgeView>, a: NameView, b: NameView) -> bool {
    exists|e: EdgeView| #[trigger]
        edges.contains(e) && e.from == a && e.to == b && (e.kind is Wants || e.kind is Requires
            || e.kind is BindsTo || e.kind is Upholds || e.kind is Requisite || e.kind is PartOf
            || e.kind is After || e.kind is Before)
}

/// Isolating a unit stops none that it leans on, over however many steps, unless
/// that has to go for another reason; and it stops none that ignores isolation.
pub proof fn isolating_spares_what_is_leant_on(
    g: GraphView,
    f: ManagerFacts,
    next: u32,
    root: NameView,
    kind: JobType,
    s: Seq<NameView>,
    w: NameView,
)
    requires
        transaction::built(g, f, next, root, kind, JobMode::Isolate) is Ok,
        w != root,
        g.exempt.contains(w) || (s.len() >= 1 && s[0] == root && s.last() == w && forall|i: int|
            0 <= i < s.len() - 1 ==> leans_on(g.edges, #[trigger] s[i], s[i + 1])),
    ensures
        ({
            let t = transaction::built(g, f, next, root, kind, JobMode::Isolate)->Ok_0;
            forall|i: int|
                0 <= i < t.jobs.len() && (#[trigger] t.jobs[i]).unit == w && t.jobs[i].kind is Stop
                    ==> is_unwanted(g, units_of(t), w)
        }),
{
    every_kind_has_a_reason(g, f, next, root, kind, JobMode::Isolate);
    if !g.exempt.contains(w) {
        assert forall|i: int| 0 <= i < s.len() - 1 implies transaction::leads(
            g.edges,
            #[trigger] s[i],
            s[i + 1],
        ) by {
            assert(leans_on(g.edges, s[i], s[i + 1]));
            let e = choose|e: EdgeView| #[trigger]
                g.edges.contains(e) && e.from == s[i] && e.to == s[i + 1] && (e.kind is Wants
                    || e.kind is Requires || e.kind is BindsTo || e.kind is Upholds || e.kind
                    is Requisite || e.kind is PartOf || e.kind is After || e.kind is Before);
            assert(g.edges.contains(EdgeView { from: s[i], kind: e.kind, to: s[i + 1] }));
        }
        assert(transaction::is_walk(g.edges, s));
        assert(transaction::in_closure(g.edges, root, w));
    }
}

/// Isolating a unit needs its leave.
pub proof fn isolating_needs_leave(
    g: GraphView,
    f: ManagerFacts,
    next: u32,
    root: NameView,
    kind: JobType,
)
    requires
        !f.isolatable.contains(root),
        !(kind is VerifyActive && f.active.contains(root)),
    ensures
        transaction::built(g, f, next, root, kind, JobMode::Isolate) is Err,
        f.loaded.contains(root) ==> transaction::built(g, f, next, root, kind, JobMode::Isolate)
            == Err::<TransactionView, TransactionErrorView>(
            TransactionErrorView::IsolateNotAllowed(root),
        ),
{
}

// ---------------------------------------------------------------------
// Existing jobs
// ---------------------------------------------------------------------

/// Whether a transaction has a job of another kind for the unit of a job.
pub open spec fn overrides(t: TransactionView, j: JobView) -> bool {
    exists|i: int|
        0 <= i < t.jobs.len() && (#[trigger] t.jobs[i]).unit == j.unit && t.jobs[i].kind != j.kind
}

/// Which existing jobs are cancelled: all where the mode flushes them, none where
/// it refuses to replace any, and then none is overridden, else just those that a
/// new job overrides.
pub proof fn overridden_jobs_are_cancelled(
    g: GraphView,
    f: ManagerFacts,
    next: u32,
    root: NameView,
    kind: JobType,
    mode: JobMode,
)
    requires
        transaction::built(g, f, next, root, kind, mode) is Ok,
        !(kind is VerifyActive && f.active.contains(root)),
    ensures
        ({
            let t = transaction::built(g, f, next, root, kind, mode)->Ok_0;
            &&& mode is Flush ==> t.cancel.len() == f.jobs.len() && forall|i: int|
                0 <= i < f.jobs.len() ==> #[trigger] t.cancel[i] == f.jobs[i].id
            &&& mode is Fail ==> t.cancel.len() == 0 && forall|i: int|
                0 <= i < f.jobs.len() ==> !overrides(t, #[trigger] f.jobs[i])
            &&& !(mode is Flush) && !(mode is Fail) ==> forall|id: JobId| #[trigger]
                t.cancel.contains(id) == exists|i: int|
                    0 <= i < f.jobs.len() && (#[trigger] f.jobs[i]).id == id && overrides(
                        t,
                        f.jobs[i],
                    )
        }),
{
    let t = transaction::built(g, f, next, root, kind, mode)->Ok_0;
    transaction::modes_cancel_existing_jobs(g, f, next, root, kind, mode);
    transaction::lemma_built(g, f, next, root, kind, mode);
    let q = transaction::expanded(g, f, root, kind, mode).0;
    let us = transaction::run_order(g, mode, q.units)->Ok_0;
    assert forall|j: JobView| #[trigger] overrides(t, j) == transaction::replaces(q, j) by {
        if overrides(t, j) {
            let i = choose|i: int|
                0 <= i < t.jobs.len() && (#[trigger] t.jobs[i]).unit == j.unit && t.jobs[i].kind
                    != j.kind;
            assert(us[i] == j.unit);
            assert(us.contains(us[i]));
        }
        if transaction::replaces(q, j) {
            assert(transaction::has_job(t, j.unit));
            let i = choose|i: int| 0 <= i < t.jobs.len() && (#[trigger] t.jobs[i]).unit == j.unit;
            assert(t.jobs[i].kind == transaction::kind_for(q, j.unit));
        }
    }
    if !(mode is Flush) && !(mode is Fail) {
        assert forall|id: JobId| #[trigger] t.cancel.contains(id) == exists|i: int|
            0 <= i < f.jobs.len() && (#[trigger] f.jobs[i]).id == id && overrides(t, f.jobs[i]) by {
            if t.cancel.contains(id) {
                let i = choose|i: int|
                    0 <= i < f.jobs.len() && (#[trigger] f.jobs[i]).id == id
                        && transaction::replaces(q, f.jobs[i]);
                assert(overrides(t, f.jobs[i]));
            }
            if exists|i: int|
                0 <= i < f.jobs.len() && (#[trigger] f.jobs[i]).id == id && overrides(
                    t,
                    f.jobs[i],
                ) {
                let i = choose|i: int|
                    0 <= i < f.jobs.len() && (#[trigger] f.jobs[i]).id == id && overrides(
                        t,
                        f.jobs[i],
                    );
                assert(transaction::replaces(q, f.jobs[i]));
            }
        }
    }
}

/// A request is refused for the sake of existing jobs only in the mode that
/// refuses to replace any, and only where there are some.
pub proof fn refusals_spare_existing_jobs(
    g: GraphView,
    f: ManagerFacts,
    next: u32,
    root: NameView,
    kind: JobType,
    mode: JobMode,
)
    ensures
        transaction::built(g, f, next, root, kind, mode) matches Err(
            TransactionErrorView::WouldReplaceFail,
        ) ==> mode is Fail && f.jobs.len() > 0,
{
}

} // verus!
