//! Dependency graph, start order and transactions.

use systeml::deps::graph::{DepEdge, DepGraph};
use systeml::deps::job::{Job, JobId, JobIdAlloc, JobMode, JobType};
use systeml::deps::transaction::{merge_kinds, Snapshot, Transaction, TransactionError};
use systeml::unit::name::UnitName;
use systeml::unit::name_map::NameMap;
use systeml::unit::spec::{Unit, UnitTypeData};

fn name(s: &str) -> UnitName {
    UnitName::from_str(s).unwrap()
}

fn empty_unit(n: &str) -> Unit {
    Unit::empty(name(n))
}

// ---- jobs

#[test]
fn alloc_monotonic() {
    let mut a = JobIdAlloc::new();
    assert_eq!(a.allocate(), JobId(1));
    assert_eq!(a.allocate(), JobId(2));
    assert_eq!(a.allocate(), JobId(3));
}

#[test]
fn alloc_starting_at_skips_sentinel() {
    let mut a = JobIdAlloc::starting_at(0);
    assert_eq!(a.allocate(), JobId(1));
}

#[test]
fn try_restart_collapses_to_nop() {
    assert_eq!(JobType::TryRestart.collapse_for_inactive(), JobType::Nop);
    assert_eq!(JobType::Start.collapse_for_inactive(), JobType::Start);
}

// ---- graph

#[test]
fn build_empty() {
    let units: NameMap<&Unit> = NameMap::new();
    let g = DepGraph::build(&units);
    assert_eq!(g.nodes().len(), 0);
}

#[test]
fn wants_creates_forward_and_reverse() {
    let mut a = empty_unit("a.service");
    a.deps.wants.insert(name("b.service"));
    let b = empty_unit("b.service");
    let mut units: NameMap<&Unit> = NameMap::new();
    units.insert(a.name.clone(), &a);
    units.insert(b.name.clone(), &b);
    let g = DepGraph::build(&units);
    let outgoing = g.outgoing(&name("a.service"));
    assert_eq!(outgoing, vec![(DepEdge::Wants, name("b.service"))]);
    let incoming = g.incoming(&name("b.service"));
    assert_eq!(incoming, vec![(DepEdge::Wants, name("a.service"))]);
}

#[test]
fn install_wantedby_synthesizes_edge() {
    let mut svc = empty_unit("hello.service");
    svc.install.wanted_by.insert(name("default.target"));
    let tgt = empty_unit("default.target");
    let mut units: NameMap<&Unit> = NameMap::new();
    units.insert(svc.name.clone(), &svc);
    units.insert(tgt.name.clone(), &tgt);
    let g = DepGraph::build(&units);
    let outgoing = g.outgoing(&name("default.target"));
    assert_eq!(outgoing, vec![(DepEdge::Wants, name("hello.service"))]);
}

#[test]
fn timer_unit_synthesizes_wants_and_before() {
    let mut t = empty_unit("hello.timer");
    if let UnitTypeData::Timer(tm) = &mut t.kind {
        tm.unit = Some(name("hello.service"));
    }
    let s = empty_unit("hello.service");
    let mut units: NameMap<&Unit> = NameMap::new();
    units.insert(t.name.clone(), &t);
    units.insert(s.name.clone(), &s);
    let g = DepGraph::build(&units);
    let outgoing = g.outgoing(&name("hello.timer"));
    assert!(outgoing.contains(&(DepEdge::Wants, name("hello.service"))));
    assert!(outgoing.contains(&(DepEdge::Before, name("hello.service"))));
}

#[test]
fn topo_after_chain() {
    let mut a = empty_unit("a.service");
    let mut b = empty_unit("b.service");
    let c = empty_unit("c.service");
    a.deps.after.insert(name("b.service"));
    b.deps.after.insert(name("c.service"));
    let mut units: NameMap<&Unit> = NameMap::new();
    units.insert(a.name.clone(), &a);
    units.insert(b.name.clone(), &b);
    units.insert(c.name.clone(), &c);
    let g = DepGraph::build(&units);
    let order = g
        .topo_order(&vec![name("a.service"), name("b.service"), name("c.service")])
        .unwrap();
    assert_eq!(
        order,
        vec![name("c.service"), name("b.service"), name("a.service")]
    );
}

#[test]
fn topo_cycle_detected() {
    let mut a = empty_unit("a.service");
    let mut b = empty_unit("b.service");
    a.deps.after.insert(name("b.service"));
    b.deps.after.insert(name("a.service"));
    let mut units: NameMap<&Unit> = NameMap::new();
    units.insert(a.name.clone(), &a);
    units.insert(b.name.clone(), &b);
    let g = DepGraph::build(&units);
    let err = g
        .topo_order(&vec![name("a.service"), name("b.service")])
        .unwrap_err();
    assert!(err == name("a.service") || err == name("b.service"));
}

#[test]
fn add_edge_is_idempotent() {
    let mut g = DepGraph::new();
    g.add_edge(name("a.service"), DepEdge::Wants, name("b.service"));
    g.add_edge(name("a.service"), DepEdge::Wants, name("b.service"));
    let n = g.outgoing(&name("a.service")).len();
    assert_eq!(n, 1);
}

// ---- transactions

type MockMgr = Snapshot;

trait Mock {
    fn with_loaded(names: &[&str]) -> Self;
    fn set_active(self, n: &str) -> Self;
    fn set_allow_isolate(self, n: &str) -> Self;
    fn with_existing(self, j: Job) -> Self;
}

impl Mock for Snapshot {
    fn with_loaded(names: &[&str]) -> Self {
        let mut m = Self::default();
        for n in names {
            m.add_loaded(name(n));
        }
        m
    }

    fn set_active(mut self, n: &str) -> Self {
        self.add_active(name(n));
        self
    }

    fn set_allow_isolate(mut self, n: &str) -> Self {
        self.add_isolatable(name(n));
        self
    }

    fn with_existing(mut self, j: Job) -> Self {
        self.add_existing(j);
        self
    }
}

/// Build a graph from the given units.
fn graph_of(units: Vec<Unit>) -> (DepGraph, Vec<Unit>) {
    let mut map: NameMap<&Unit> = NameMap::new();
    for u in &units {
        map.insert(u.name.clone(), u);
    }
    let g = DepGraph::build(&map);
    (g, units)
}

fn job_units(t: &Transaction) -> Vec<String> {
    t.jobs.iter().map(|j| j.unit.to_text()).collect()
}

#[test]
fn linear_chain_wants() {
    let mut a = empty_unit("a.service");
    a.deps.wants.insert(name("b.service"));
    let mut b = empty_unit("b.service");
    b.deps.wants.insert(name("c.service"));
    let c = empty_unit("c.service");
    let (g, _u) = graph_of(vec![a, b, c]);
    let mgr = MockMgr::with_loaded(&["a.service", "b.service", "c.service"]);
    let mut ids = JobIdAlloc::new();
    let t = Transaction::build(
        &g,
        &mgr,
        &mut ids,
        name("a.service"),
        JobType::Start,
        JobMode::Replace,
    )
    .unwrap();
    assert_eq!(t.jobs.len(), 3);
    assert!(t.jobs.iter().all(|j| j.kind == JobType::Start));
    let units = job_units(&t);
    assert!(units.contains(&"a.service".to_owned()));
    assert!(units.contains(&"b.service".to_owned()));
    assert!(units.contains(&"c.service".to_owned()));
}

#[test]
fn diamond_no_duplicate_jobs() {
    // a wants b, c; b wants d; c wants d
    let mut a = empty_unit("a.service");
    a.deps.wants.insert(name("b.service"));
    a.deps.wants.insert(name("c.service"));
    let mut b = empty_unit("b.service");
    b.deps.wants.insert(name("d.service"));
    let mut c = empty_unit("c.service");
    c.deps.wants.insert(name("d.service"));
    let d = empty_unit("d.service");
    let (g, _u) = graph_of(vec![a, b, c, d]);
    let mgr = MockMgr::with_loaded(&["a.service", "b.service", "c.service", "d.service"]);
    let mut ids = JobIdAlloc::new();
    let t = Transaction::build(
        &g,
        &mgr,
        &mut ids,
        name("a.service"),
        JobType::Start,
        JobMode::Replace,
    )
    .unwrap();
    assert_eq!(t.jobs.len(), 4, "got: {:?}", job_units(&t));
}

#[test]
fn cycle_after_returns_error() {
    let mut a = empty_unit("a.service");
    let mut b = empty_unit("b.service");
    a.deps.wants.insert(name("b.service"));
    a.deps.after.insert(name("b.service"));
    b.deps.after.insert(name("a.service"));
    let (g, _u) = graph_of(vec![a, b]);
    let mgr = MockMgr::with_loaded(&["a.service", "b.service"]);
    let mut ids = JobIdAlloc::new();
    let err = Transaction::build(
        &g,
        &mgr,
        &mut ids,
        name("a.service"),
        JobType::Start,
        JobMode::Replace,
    )
    .unwrap_err();
    assert!(matches!(err, TransactionError::Cycle(_)));
}

#[test]
fn conflicts_queues_stop() {
    let mut a = empty_unit("a.service");
    a.deps.conflicts.insert(name("b.service"));
    let b = empty_unit("b.service");
    let (g, _u) = graph_of(vec![a, b]);
    let mgr = MockMgr::with_loaded(&["a.service", "b.service"]);
    let mut ids = JobIdAlloc::new();
    let t = Transaction::build(
        &g,
        &mgr,
        &mut ids,
        name("a.service"),
        JobType::Start,
        JobMode::Replace,
    )
    .unwrap();
    let stop = t
        .jobs
        .iter()
        .find(|j| j.unit == name("b.service"))
        .expect("b stop queued");
    assert_eq!(stop.kind, JobType::Stop);
    let start = t
        .jobs
        .iter()
        .find(|j| j.unit == name("a.service"))
        .expect("a start queued");
    assert_eq!(start.kind, JobType::Start);
}

#[test]
fn binds_to_reverse_propagates_stop() {
    // b BindsTo a → stopping a stops b too.
    let a = empty_unit("a.service");
    let mut b = empty_unit("b.service");
    b.deps.binds_to.insert(name("a.service"));
    let (g, _u) = graph_of(vec![a, b]);
    let mgr = MockMgr::with_loaded(&["a.service", "b.service"]).set_active("b.service");
    let mut ids = JobIdAlloc::new();
    let t = Transaction::build(
        &g,
        &mgr,
        &mut ids,
        name("a.service"),
        JobType::Stop,
        JobMode::Replace,
    )
    .unwrap();
    assert_eq!(t.jobs.len(), 2);
    assert!(t.jobs.iter().all(|j| j.kind == JobType::Stop));
    let names: Vec<_> = job_units(&t);
    assert!(names.contains(&"a.service".to_owned()));
    assert!(names.contains(&"b.service".to_owned()));
}

#[test]
fn part_of_propagates_stop() {
    // b PartOf a → stopping a stops b too.
    let a = empty_unit("a.target");
    let mut b = empty_unit("b.service");
    b.deps.part_of.insert(name("a.target"));
    let (g, _u) = graph_of(vec![a, b]);
    let mgr = MockMgr::with_loaded(&["a.target", "b.service"]);
    let mut ids = JobIdAlloc::new();
    let t = Transaction::build(
        &g,
        &mgr,
        &mut ids,
        name("a.target"),
        JobType::Stop,
        JobMode::Replace,
    )
    .unwrap();
    let names: Vec<_> = job_units(&t);
    assert!(names.contains(&"b.service".to_owned()));
}

#[test]
fn isolate_stops_outside_closure() {
    // root: target.t with Wants=hello.service; quux.service is loaded+active
    // and should be stopped under isolate.
    let mut root = empty_unit("root.target");
    root.allow_isolate = true;
    root.deps.wants.insert(name("hello.service"));
    let hello = empty_unit("hello.service");
    let quux = empty_unit("quux.service");
    let (g, _u) = graph_of(vec![root, hello, quux]);
    let mgr = MockMgr::with_loaded(&["root.target", "hello.service", "quux.service"])
        .set_active("quux.service")
        .set_allow_isolate("root.target");
    let mut ids = JobIdAlloc::new();
    let t = Transaction::build(
        &g,
        &mgr,
        &mut ids,
        name("root.target"),
        JobType::Start,
        JobMode::Isolate,
    )
    .unwrap();
    let stop = t
        .jobs
        .iter()
        .find(|j| j.unit == name("quux.service"))
        .expect("quux stop queued");
    assert_eq!(stop.kind, JobType::Stop);
}

#[test]
fn isolate_requires_allow_isolate() {
    let root = empty_unit("root.target");
    let (g, _u) = graph_of(vec![root]);
    let mgr = MockMgr::with_loaded(&["root.target"]);
    let mut ids = JobIdAlloc::new();
    let err = Transaction::build(
        &g,
        &mgr,
        &mut ids,
        name("root.target"),
        JobType::Start,
        JobMode::Isolate,
    )
    .unwrap_err();
    assert!(matches!(err, TransactionError::IsolateNotAllowed(_)));
}

#[test]
fn fail_mode_rejects_replacement() {
    let a = empty_unit("a.service");
    let (g, _u) = graph_of(vec![a]);
    let mgr = MockMgr::with_loaded(&["a.service"]).with_existing(Job::new(
        JobId(42),
        name("a.service"),
        JobType::Stop,
        JobMode::Replace,
    ));
    let mut ids = JobIdAlloc::new();
    let err = Transaction::build(
        &g,
        &mgr,
        &mut ids,
        name("a.service"),
        JobType::Start,
        JobMode::Fail,
    )
    .unwrap_err();
    assert_eq!(err, TransactionError::WouldReplaceFail);
}

#[test]
fn replace_mode_cancels_conflict() {
    let a = empty_unit("a.service");
    let (g, _u) = graph_of(vec![a]);
    let mgr = MockMgr::with_loaded(&["a.service"]).with_existing(Job::new(
        JobId(42),
        name("a.service"),
        JobType::Stop,
        JobMode::Replace,
    ));
    let mut ids = JobIdAlloc::new();
    let t = Transaction::build(
        &g,
        &mgr,
        &mut ids,
        name("a.service"),
        JobType::Start,
        JobMode::Replace,
    )
    .unwrap();
    assert_eq!(t.cancel, vec![JobId(42)]);
}

#[test]
fn flush_mode_cancels_everything() {
    let a = empty_unit("a.service");
    let (g, _u) = graph_of(vec![a]);
    let mgr = MockMgr::with_loaded(&["a.service"])
        .with_existing(Job::new(
            JobId(7),
            name("other.service"),
            JobType::Start,
            JobMode::Replace,
        ))
        .with_existing(Job::new(
            JobId(8),
            name("yet.service"),
            JobType::Stop,
            JobMode::Replace,
        ));
    let mut ids = JobIdAlloc::new();
    let t = Transaction::build(
        &g,
        &mgr,
        &mut ids,
        name("a.service"),
        JobType::Start,
        JobMode::Flush,
    )
    .unwrap();
    assert_eq!(t.cancel.len(), 2);
}

#[test]
fn ignore_dependencies_keeps_only_root() {
    let mut a = empty_unit("a.service");
    a.deps.wants.insert(name("b.service"));
    let b = empty_unit("b.service");
    let (g, _u) = graph_of(vec![a, b]);
    let mgr = MockMgr::with_loaded(&["a.service", "b.service"]);
    let mut ids = JobIdAlloc::new();
    let t = Transaction::build(
        &g,
        &mgr,
        &mut ids,
        name("a.service"),
        JobType::Start,
        JobMode::IgnoreDependencies,
    )
    .unwrap();
    assert_eq!(t.jobs.len(), 1);
    assert_eq!(t.jobs[0].unit, name("a.service"));
}

#[test]
fn ignore_requirements_skips_topo() {
    // Cycle would normally fail; with IgnoreRequirements we skip topo.
    let mut a = empty_unit("a.service");
    let mut b = empty_unit("b.service");
    a.deps.after.insert(name("b.service"));
    a.deps.wants.insert(name("b.service"));
    b.deps.after.insert(name("a.service"));
    let (g, _u) = graph_of(vec![a, b]);
    let mgr = MockMgr::with_loaded(&["a.service", "b.service"]);
    let mut ids = JobIdAlloc::new();
    let t = Transaction::build(
        &g,
        &mgr,
        &mut ids,
        name("a.service"),
        JobType::Start,
        JobMode::IgnoreRequirements,
    )
    .unwrap();
    // 2 jobs even though there's a cycle.
    assert_eq!(t.jobs.len(), 2);
}

#[test]
fn verify_active_already_active_returns_empty() {
    let a = empty_unit("a.service");
    let (g, _u) = graph_of(vec![a]);
    let mgr = MockMgr::with_loaded(&["a.service"]).set_active("a.service");
    let mut ids = JobIdAlloc::new();
    let t = Transaction::build(
        &g,
        &mgr,
        &mut ids,
        name("a.service"),
        JobType::VerifyActive,
        JobMode::Replace,
    )
    .unwrap();
    assert!(t.jobs.is_empty());
}

#[test]
fn requisite_emits_verify_active() {
    let mut a = empty_unit("a.service");
    a.deps.requisite.insert(name("b.service"));
    let b = empty_unit("b.service");
    let (g, _u) = graph_of(vec![a, b]);
    let mgr = MockMgr::with_loaded(&["a.service", "b.service"]);
    let mut ids = JobIdAlloc::new();
    let t = Transaction::build(
        &g,
        &mgr,
        &mut ids,
        name("a.service"),
        JobType::Start,
        JobMode::Replace,
    )
    .unwrap();
    let verify = t
        .jobs
        .iter()
        .find(|j| j.unit == name("b.service"))
        .unwrap();
    assert_eq!(verify.kind, JobType::VerifyActive);
}

#[test]
fn missing_unit_returns_not_loaded() {
    let g = DepGraph::new();
    let mgr = MockMgr::default();
    let mut ids = JobIdAlloc::new();
    let err = Transaction::build(
        &g,
        &mgr,
        &mut ids,
        name("nope.service"),
        JobType::Start,
        JobMode::Replace,
    )
    .unwrap_err();
    assert!(matches!(err, TransactionError::NotLoaded(_)));
}

#[test]
fn topo_orders_after() {
    let mut a = empty_unit("a.service");
    a.deps.wants.insert(name("b.service"));
    a.deps.after.insert(name("b.service"));
    let b = empty_unit("b.service");
    let (g, _u) = graph_of(vec![a, b]);
    let mgr = MockMgr::with_loaded(&["a.service", "b.service"]);
    let mut ids = JobIdAlloc::new();
    let t = Transaction::build(
        &g,
        &mgr,
        &mut ids,
        name("a.service"),
        JobType::Start,
        JobMode::Replace,
    )
    .unwrap();
    let units = job_units(&t);
    let pos_a = units.iter().position(|n| n == "a.service").unwrap();
    let pos_b = units.iter().position(|n| n == "b.service").unwrap();
    assert!(pos_b < pos_a, "b must precede a; got {units:?}");
}

#[test]
fn reload_propagates_via_propagates_reload_to() {
    let mut a = empty_unit("a.service");
    a.deps.propagates_reload_to.insert(name("b.service"));
    let b = empty_unit("b.service");
    let (g, _u) = graph_of(vec![a, b]);
    let mgr = MockMgr::with_loaded(&["a.service", "b.service"]);
    let mut ids = JobIdAlloc::new();
    let t = Transaction::build(
        &g,
        &mgr,
        &mut ids,
        name("a.service"),
        JobType::Reload,
        JobMode::Replace,
    )
    .unwrap();
    assert_eq!(t.jobs.len(), 2);
    assert!(t.jobs.iter().all(|j| j.kind == JobType::Reload));
}

#[test]
fn restart_expands_and_propagates_part_of() {
    // c PartOf=a → restart of a try-restarts c.
    let mut a = empty_unit("a.service");
    a.deps.wants.insert(name("b.service"));
    let b = empty_unit("b.service");
    let mut c = empty_unit("c.service");
    c.deps.part_of.insert(name("a.service"));
    let (g, _u) = graph_of(vec![a, b, c]);
    let mgr = MockMgr::with_loaded(&["a.service", "b.service", "c.service"])
        .set_active("c.service");
    let mut ids = JobIdAlloc::new();
    let t = Transaction::build(
        &g,
        &mgr,
        &mut ids,
        name("a.service"),
        JobType::Restart,
        JobMode::Replace,
    )
    .unwrap();
    let c_job = t.jobs.iter().find(|j| j.unit == name("c.service")).unwrap();
    // We collapse TryRestart on inactive units to Nop; c is active, so
    // it stays TryRestart.
    assert_eq!(c_job.kind, JobType::TryRestart);
}

#[test]
fn requires_pulls_in_target() {
    let mut a = empty_unit("a.service");
    a.deps.requires.insert(name("b.service"));
    let b = empty_unit("b.service");
    let (g, _u) = graph_of(vec![a, b]);
    let mgr = MockMgr::with_loaded(&["a.service", "b.service"]);
    let mut ids = JobIdAlloc::new();
    let t = Transaction::build(
        &g,
        &mgr,
        &mut ids,
        name("a.service"),
        JobType::Start,
        JobMode::Replace,
    )
    .unwrap();
    assert_eq!(t.jobs.len(), 2);
}

// ---- how far requests reach

fn start(g: &DepGraph, mgr: &MockMgr, n: &str, kind: JobType, mode: JobMode) -> Transaction {
    let mut ids = JobIdAlloc::new();
    Transaction::build(g, mgr, &mut ids, name(n), kind, mode).unwrap()
}

fn kinds(t: &Transaction) -> Vec<(String, JobType)> {
    let mut v: Vec<(String, JobType)> =
        t.jobs.iter().map(|j| (j.unit.to_text(), j.kind)).collect();
    v.sort_by(|a, b| a.0.cmp(&b.0));
    v
}

fn of(pairs: &[(&str, JobType)]) -> Vec<(String, JobType)> {
    pairs.iter().map(|p| (p.0.to_owned(), p.1)).collect()
}

#[test]
fn stops_reach_far() {
    let a = empty_unit("a.service");
    let mut b = empty_unit("b.service");
    b.deps.part_of.insert(name("a.service"));
    let mut c = empty_unit("c.service");
    c.deps.binds_to.insert(name("b.service"));
    c.deps.propagates_stop_to.insert(name("d.service"));
    let (g, _u) =
        graph_of(vec![a, b, c, empty_unit("d.service"), empty_unit("other.service")]);
    let mgr = MockMgr::with_loaded(&[
        "a.service",
        "b.service",
        "c.service",
        "d.service",
        "other.service",
    ]);
    let t = start(&g, &mgr, "a.service", JobType::Stop, JobMode::Replace);
    let s = JobType::Stop;
    assert_eq!(
        kinds(&t),
        of(&[("a.service", s), ("b.service", s), ("c.service", s), ("d.service", s)])
    );
}

#[test]
fn reloads_reach_far() {
    let mut a = empty_unit("a.service");
    a.deps.propagates_reload_to.insert(name("b.service"));
    let mut b = empty_unit("b.service");
    b.deps.propagates_reload_to.insert(name("c.service"));
    let (g, _u) = graph_of(vec![a, b, empty_unit("c.service")]);
    let mgr = MockMgr::with_loaded(&["a.service", "b.service", "c.service"]);
    let t = start(&g, &mgr, "a.service", JobType::Reload, JobMode::Fail);
    let r = JobType::Reload;
    assert_eq!(kinds(&t), of(&[("a.service", r), ("b.service", r), ("c.service", r)]));
}

#[test]
fn starts_reach_far() {
    let mut a = empty_unit("a.service");
    a.deps.requires.insert(name("b.service"));
    let mut b = empty_unit("b.service");
    b.deps.wants.insert(name("c.service"));
    let mut c = empty_unit("c.service");
    c.deps.conflicts.insert(name("d.service"));
    let mut e = empty_unit("e.service");
    e.deps.binds_to.insert(name("d.service"));
    let (g, _u) =
        graph_of(vec![a, b, c, empty_unit("d.service"), e, empty_unit("other.service")]);
    let mgr = MockMgr::with_loaded(&[
        "a.service",
        "b.service",
        "c.service",
        "d.service",
        "e.service",
        "other.service",
    ]);
    let t = start(&g, &mgr, "a.service", JobType::Start, JobMode::Replace);
    assert_eq!(
        kinds(&t),
        of(&[
            ("a.service", JobType::Start),
            ("b.service", JobType::Start),
            ("c.service", JobType::Start),
            ("d.service", JobType::Stop),
            ("e.service", JobType::Stop),
        ])
    );
}

#[test]
fn starts_reach_past_missing_wishes() {
    let mut a = empty_unit("a.service");
    a.deps.wants.insert(name("missing.service"));
    a.deps.requisite.insert(name("v.service"));
    a.deps.requires.insert(name("b.service"));
    let mut b = empty_unit("b.service");
    b.deps.upholds.insert(name("c.service"));
    let (g, _u) = graph_of(vec![a, b, empty_unit("c.service"), empty_unit("v.service")]);
    let mgr = MockMgr::with_loaded(&["a.service", "b.service", "c.service", "v.service"]);
    let t = start(&g, &mgr, "a.service", JobType::Start, JobMode::Replace);
    assert_eq!(
        kinds(&t),
        of(&[
            ("a.service", JobType::Start),
            ("b.service", JobType::Start),
            ("c.service", JobType::Start),
            ("v.service", JobType::VerifyActive),
        ])
    );
}

#[test]
fn isolate_stops_every_loaded_unit_outside() {
    let mut root = empty_unit("root.target");
    root.allow_isolate = true;
    let mut kept = empty_unit("kept.service");
    kept.ignore_on_isolate = true;
    let (g, _u) = graph_of(vec![root, kept, empty_unit("idle.service")]);
    let mgr = MockMgr::with_loaded(&["root.target", "kept.service", "idle.service"])
        .set_allow_isolate("root.target");
    let t = start(&g, &mgr, "root.target", JobType::Start, JobMode::Isolate);
    assert_eq!(
        kinds(&t),
        of(&[("idle.service", JobType::Stop), ("root.target", JobType::Start)])
    );
}

#[test]
fn kinds_merge() {
    assert_eq!(merge_kinds(JobType::Start, JobType::Stop), JobType::Restart);
    assert_eq!(merge_kinds(JobType::Stop, JobType::Start), JobType::Restart);
    assert_eq!(merge_kinds(JobType::Nop, JobType::Stop), JobType::Stop);
    assert_eq!(merge_kinds(JobType::Reload, JobType::Start), JobType::ReloadOrStart);
    assert_eq!(merge_kinds(JobType::VerifyActive, JobType::Start), JobType::Start);
    assert_eq!(merge_kinds(JobType::TryRestart, JobType::Start), JobType::Restart);
    assert_eq!(merge_kinds(JobType::VerifyActive, JobType::Stop), JobType::Stop);
    assert_eq!(merge_kinds(JobType::Stop, JobType::VerifyActive), JobType::VerifyActive);
    assert!(JobType::Stop.results_in_inactive());
    assert!(!JobType::Start.results_in_inactive());
    assert!(DepEdge::After.is_ordering());
    assert!(!DepEdge::Wants.is_ordering());
}
