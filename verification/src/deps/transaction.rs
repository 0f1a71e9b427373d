//! Transaction builder.
//!
//! Given a [`DepGraph`], a [`ManagerView`], and a root job request, produce
//! an ordered [`Transaction`] of [`Job`]s.
//!
//! # Expansion rules
//!
//! - `Start unit`: also start every `Wants=`/`Requires=`/`BindsTo=`/`Upholds=`
//!   target; verify-active for `Requisite=`; stop every `Conflicts=` target.
//! - `Stop unit`: also stop everything that `BindsTo=` it (reverse), every
//!   `PartOf=`-source, and follow `PropagatesStopTo=`.
//! - `Restart unit`: stop+start the unit, plus propagate try-restart to
//!   units with `PartOf=this`.
//! - `Reload unit`: only the reload, plus a reload to every
//!   `PropagatesReloadTo=` target.
//! - `VerifyActive unit`: no expansion; collapses to `Nop` if already active.
//!
//! # Modes
//!
//! - `Fail`: refuse if any new job would replace an existing one for the
//!   same unit with a different kind.
//! - `Replace` / `ReplaceIrreversibly`: cancel conflicting existing jobs.
//! - `Isolate`: queue a `Stop` for every loaded unit not in the dep closure
//!   of the root and not `IgnoreOnIsolate=yes`. Requires `AllowIsolate=yes`
//!   on the root.
//! - `Flush`: drop all queued jobs first.
//! - `IgnoreDependencies`: emit only the root job.
//! - `IgnoreRequirements`: expand pull deps but skip ordering.

use crate::deps::graph;
use crate::deps::graph::{DepEdge, DepGraph, EdgeView, GraphView};
use crate::deps::job;
use crate::deps::job::{Job, JobId, JobIdAlloc, JobMode, JobType, JobView};
use crate::deps::order;
use crate::unit::name;
use crate::unit::name::{NameView, UnitName};
use crate::unit::name_map;
use crate::unit::name_map::{NameMap, NameTable};
use crate::unit::name_set;
use vstd::prelude::*;

verus! {

// ---------------------------------------------------------------------
// What the manager knows
// ---------------------------------------------------------------------

/// The manager state that a transaction is built on.
pub struct ManagerFacts {
    /// The units that are loaded.
    pub loaded: Set<NameView>,
    /// The units that are active.
    pub active: Set<NameView>,
    /// The units with `AllowIsolate=yes`.
    pub isolatable: Set<NameView>,
    /// The jobs that are queued or in flight.
    pub jobs: Seq<JobView>,
}

/// A read-only view of the manager state needed to build a transaction.
pub trait ManagerView {
    /// What the manager knows.
    spec fn facts(&self) -> ManagerFacts;

    /// Whether the unit is loaded (parsed and registered).
    fn is_loaded(&self, name: &UnitName) -> (r: bool)
        ensures
            r == self.facts().loaded.contains(name@),
    ;

    /// Whether the unit is currently active.
    fn is_active(&self, name: &UnitName) -> (r: bool)
        ensures
            r == self.facts().active.contains(name@),
    ;

    /// `AllowIsolate=yes` on the unit.
    fn allow_isolate(&self, name: &UnitName) -> (r: bool)
        ensures
            r == self.facts().isolatable.contains(name@),
    ;

    /// Existing queued or in-flight jobs.
    fn existing_jobs(&self) -> (r: &[Job])
        ensures
            job::jobs_view(r@) == self.facts().jobs,
    ;
}

/// A manager state held as plain lists.
pub struct Snapshot {
    loaded: NameTable,
    active: NameTable,
    isolatable: NameTable,
    jobs: Vec<Job>,
}

impl ManagerView for Snapshot {
    closed spec fn facts(&self) -> ManagerFacts {
        ManagerFacts {
            loaded: self.loaded@.to_set(),
            active: self.active@.to_set(),
            isolatable: self.isolatable@.to_set(),
            jobs: job::jobs_view(self.jobs@),
        }
    }

    fn is_loaded(&self, name: &UnitName) -> (r: bool) {
        self.loaded.contains(name)
    }

    fn is_active(&self, name: &UnitName) -> (r: bool) {
        self.active.contains(name)
    }

    fn allow_isolate(&self, name: &UnitName) -> (r: bool) {
        self.isolatable.contains(name)
    }

    fn existing_jobs(&self) -> (r: &[Job]) {
        self.jobs.as_slice()
    }
}

/// The state of a manager that knows nothing.
pub open spec fn no_facts() -> ManagerFacts {
    ManagerFacts {
        loaded: Set::empty(),
        active: Set::empty(),
        isolatable: Set::empty(),
        jobs: seq![],
    }
}

impl Default for Snapshot {
    fn default() -> (r: Self)
        ensures
            r.facts() == no_facts(),
    {
        Snapshot::new()
    }
}

proof fn lemma_with_name_set(s: Seq<NameView>, n: NameView)
    ensures
        name_map::with_name(s, n).to_set() == s.to_set().insert(n),
{
    let t = name_map::with_name(s, n);
    assert forall|x: NameView| t.to_set().contains(x) == s.to_set().insert(n).contains(x) by {
        if s.contains(x) {
            let k = choose|k: int| 0 <= k < s.len() && s[k] == x;
            assert(t[k] == x);
        }
        if x == n && !s.contains(n) {
            assert(t[s.len() as int] == n);
        }
        if t.contains(x) && x != n {
            let k = choose|k: int| 0 <= k < t.len() && t[k] == x;
            assert(s[k] == x);
        }
    }
    assert(t.to_set() =~= s.to_set().insert(n));
}

impl Snapshot {
    /// The state of a manager that knows nothing.
    pub fn new() -> (r: Self)
        ensures
            r.facts() == no_facts(),
    {
        let r = Snapshot {
            loaded: NameTable::new(),
            active: NameTable::new(),
            isolatable: NameTable::new(),
            jobs: Vec::new(),
        };
        proof {
            let none = Seq::<NameView>::empty();
            assert(none.to_set() =~= Set::<NameView>::empty());
            assert(job::jobs_view(r.jobs@) =~= seq![]);
        }
        r
    }

    /// Marks a unit as loaded.
    pub fn add_loaded(&mut self, n: UnitName)
        ensures
            final(self).facts() == (ManagerFacts {
                loaded: old(self).facts().loaded.insert(n@),
                ..old(self).facts()
            }),
    {
        proof {
            lemma_with_name_set(self.loaded@, n@);
        }
        let _ = self.loaded.insert(n);
    }

    /// Marks a unit as active.
    pub fn add_active(&mut self, n: UnitName)
        ensures
            final(self).facts() == (ManagerFacts {
                active: old(self).facts().active.insert(n@),
                ..old(self).facts()
            }),
    {
        proof {
            lemma_with_name_set(self.active@, n@);
        }
        let _ = self.active.insert(n);
    }

    /// Marks a unit as one that may be isolated.
    pub fn add_isolatable(&mut self, n: UnitName)
        ensures
            final(self).facts() == (ManagerFacts {
                isolatable: old(self).facts().isolatable.insert(n@),
                ..old(self).facts()
            }),
    {
        proof {
            lemma_with_name_set(self.isolatable@, n@);
        }
        let _ = self.isolatable.insert(n);
    }

    /// Adds an existing job.
    pub fn add_existing(&mut self, j: Job)
        ensures
            final(self).facts() == (ManagerFacts {
                jobs: old(self).facts().jobs.push(j@),
                ..old(self).facts()
            }),
    {
        proof {
            assert(job::jobs_view(self.jobs@.push(j)) =~= job::jobs_view(self.jobs@).push(j@));
        }
        self.jobs.push(j);
    }
}

// ---------------------------------------------------------------------
// Results
// ---------------------------------------------------------------------

/// A built transaction.
#[derive(Debug)]
pub struct Transaction {
    /// Jobs in dependency-respecting order. Run head-to-tail.
    pub jobs: Vec<Job>,
    /// Existing job ids the runtime should cancel before applying.
    pub cancel: Vec<JobId>,
}

/// A [`Transaction`] by its characters.
#[verifier::ext_equal]
pub struct TransactionView {
    pub jobs: Seq<JobView>,
    pub cancel: Seq<JobId>,
}

impl View for Transaction {
    type V = TransactionView;

    open spec fn view(&self) -> TransactionView {
        TransactionView { jobs: job::jobs_view(self.jobs@), cancel: self.cancel@ }
    }
}

/// The transaction without jobs.
pub open spec fn no_transaction() -> TransactionView {
    TransactionView { jobs: seq![], cancel: seq![] }
}

impl Default for Transaction {
    fn default() -> (r: Self)
        ensures
            r@ == no_transaction(),
    {
        let r = Transaction { jobs: Vec::new(), cancel: Vec::new() };
        proof {
            assert(r@ =~= no_transaction());
        }
        r
    }
}

/// Errors that prevent a transaction from being built.
#[derive(Debug, PartialEq, Eq)]
pub enum TransactionError {
    /// Cyclic ordering dependency (`After=` chain).
    Cycle(UnitName),
    /// Unit not loaded.
    NotLoaded(UnitName),
    /// Conflicting job already exists.
    Conflict(UnitName),
    /// Mode is `Fail` and dependencies would require replacing existing jobs.
    WouldReplaceFail,
    /// `Isolate` requested on a unit without `AllowIsolate=yes`.
    IsolateNotAllowed(UnitName),
    /// Requested job type is not applicable to this unit.
    NotApplicable(UnitName, JobType),
}

/// A [`TransactionError`] by its characters.
pub enum TransactionErrorView {
    Cycle(NameView),
    NotLoaded(NameView),
    Conflict(NameView),
    WouldReplaceFail,
    IsolateNotAllowed(NameView),
    NotApplicable(NameView, JobType),
}

impl View for TransactionError {
    type V = TransactionErrorView;

    open spec fn view(&self) -> TransactionErrorView {
        match self {
            TransactionError::Cycle(n) => TransactionErrorView::Cycle(n@),
            TransactionError::NotLoaded(n) => TransactionErrorView::NotLoaded(n@),
            TransactionError::Conflict(n) => TransactionErrorView::Conflict(n@),
            TransactionError::WouldReplaceFail => TransactionErrorView::WouldReplaceFail,
            TransactionError::IsolateNotAllowed(n) => TransactionErrorView::IsolateNotAllowed(n@),
            TransactionError::NotApplicable(n, k) => TransactionErrorView::NotApplicable(n@, *k),
        }
    }
}

/// The name of a job type.
pub open spec fn kind_text(kind: JobType) -> Seq<char> {
    match kind {
        JobType::Start => "Start"@,
        JobType::Stop => "Stop"@,
        JobType::Restart => "Restart"@,
        JobType::TryRestart => "TryRestart"@,
        JobType::Reload => "Reload"@,
        JobType::ReloadOrStart => "ReloadOrStart"@,
        JobType::VerifyActive => "VerifyActive"@,
        JobType::Nop => "Nop"@,
    }
}

/// What an error says.
pub open spec fn error_text(e: TransactionErrorView) -> Seq<char> {
    match e {
        TransactionErrorView::Cycle(n) => "cyclic dependency involving "@ + name::name_text(n),
        TransactionErrorView::NotLoaded(n) => "unit "@ + name::name_text(n) + " is not loaded"@,
        TransactionErrorView::Conflict(n) => "conflicting job exists for "@ + name::name_text(n),
        TransactionErrorView::WouldReplaceFail =>
            "would require replacing existing jobs (mode=fail)"@,
        TransactionErrorView::IsolateNotAllowed(n) => "isolate not allowed for "@
            + name::name_text(n),
        TransactionErrorView::NotApplicable(n, k) => "job type "@ + kind_text(k)
            + " not applicable to "@ + name::name_text(n),
    }
}

/// The name of a job type.
pub fn kind_label(kind: JobType) -> (r: &'static str)
    ensures
        r@ == kind_text(kind),
{
    match kind {
        JobType::Start => "Start",
        JobType::Stop => "Stop",
        JobType::Restart => "Restart",
        JobType::TryRestart => "TryRestart",
        JobType::Reload => "Reload",
        JobType::ReloadOrStart => "ReloadOrStart",
        JobType::VerifyActive => "VerifyActive",
        JobType::Nop => "Nop",
    }
}

impl TransactionError {
    /// What the error says.
    pub fn message(&self) -> (r: String)
        ensures
            r@ == error_text(self@),
    {
        match self {
            TransactionError::Cycle(n) => {
                let mut s = "cyclic dependency involving ".to_owned();
                s.append(n.filename().as_str());
                s
            },
            TransactionError::NotLoaded(n) => {
                let mut s = "unit ".to_owned();
                s.append(n.filename().as_str());
                s.append(" is not loaded");
                s
            },
            TransactionError::Conflict(n) => {
                let mut s = "conflicting job exists for ".to_owned();
                s.append(n.filename().as_str());
                s
            },
            TransactionError::WouldReplaceFail => {
                "would require replacing existing jobs (mode=fail)".to_owned()
            },
            TransactionError::IsolateNotAllowed(n) => {
                let mut s = "isolate not allowed for ".to_owned();
                s.append(n.filename().as_str());
                s
            },
            TransactionError::NotApplicable(n, k) => {
                let mut s = "job type ".to_owned();
                s.append(kind_label(*k));
                s.append(" not applicable to ");
                s.append(n.filename().as_str());
                s
            },
        }
    }
}

// ---------------------------------------------------------------------
// Jobs being assembled
// ---------------------------------------------------------------------

/// Units with the kind of job each is to get, in the order in which they were
/// first asked for.
#[verifier::ext_equal]
pub struct Queued {
    pub units: Seq<NameView>,
    pub kinds: Seq<JobType>,
}

/// No jobs.
pub open spec fn none_queued() -> Queued {
    Queued { units: seq![], kinds: seq![] }
}

/// The kind of job that a unit is to get.
pub open spec fn kind_for(q: Queued, n: NameView) -> JobType {
    q.kinds[q.units.index_of(n)]
}

/// Two kinds of job for the same unit, made one. `Nop` gives way to the other;
/// start and stop make a restart, which covers every other kind; reload and
/// start make reload-or-start; verify-active gives way to what activates; a
/// try-restart and what activates make a restart; else the later one stands.
pub open spec fn merged(a: JobType, b: JobType) -> JobType {
    if b is Nop || a == b {
        a
    } else if a is Nop {
        b
    } else if (a is Stop && b is Start) || (a is Start && b is Stop) {
        JobType::Restart
    } else if a is Restart || b is Restart {
        JobType::Restart
    } else if (a is Reload && b is Start) || (a is Start && b is Reload) {
        JobType::ReloadOrStart
    } else if a is VerifyActive && job::activates(b) {
        b
    } else if b is VerifyActive && job::activates(a) {
        a
    } else if (a is TryRestart && job::activates(b)) || (b is TryRestart && job::activates(a)) {
        JobType::Restart
    } else {
        b
    }
}

/// Merge two job kinds for the same unit. Used when the expansion visits a
/// unit twice.
pub fn merge_kinds(a: JobType, b: JobType) -> (r: JobType)
    ensures
        r == merged(a, b),
{
    match (a, b) {
        (x, JobType::Nop) => x,
        (JobType::Nop, x) => x,
        (JobType::Stop, JobType::Start) | (JobType::Start, JobType::Stop) => JobType::Restart,
        (JobType::Restart, _) | (_, JobType::Restart) => JobType::Restart,
        (JobType::Reload, JobType::Start) | (JobType::Start, JobType::Reload) =>
            JobType::ReloadOrStart,
        _ => {
            if a == b {
                a
            } else if a == JobType::VerifyActive && b.results_in_active() {
                b
            } else if b == JobType::VerifyActive && a.results_in_active() {
                a
            } else if (a == JobType::TryRestart && b.results_in_active()) || (b
                == JobType::TryRestart && a.results_in_active()) {
                JobType::Restart
            } else {
                b
            }
        },
    }
}

/// The kind that a job for a unit comes down to: a try-restart of a unit that
/// is not active, and a verify-active of one that is, have nothing to do.
pub open spec fn collapsed(f: ManagerFacts, n: NameView, kind: JobType) -> JobType {
    if kind is TryRestart && !f.active.contains(n) {
        JobType::Nop
    } else if kind is VerifyActive && f.active.contains(n) {
        JobType::Nop
    } else {
        kind
    }
}

/// Jobs with one more: merged with the one that the unit has, else at the end.
pub open spec fn put(q: Queued, n: NameView, kind: JobType) -> Queued {
    if q.units.contains(n) {
        Queued { kinds: q.kinds.update(q.units.index_of(n), merged(kind_for(q, n), kind)), ..q }
    } else {
        Queued { units: q.units.push(n), kinds: q.kinds.push(kind) }
    }
}

/// A job that another one asks for. Where it fails, a hard one fails the other
/// and a soft one does not.
pub struct PullView {
    pub unit: NameView,
    pub kind: JobType,
    pub hard: bool,
}

/// What starting a unit asks for, by the edges that leave it.
pub open spec fn start_pulls(f: ManagerFacts, ends: Seq<(DepEdge, NameView)>) -> Seq<PullView>
    decreases ends.len(),
{
    if ends.len() == 0 {
        seq![]
    } else {
        let rest = start_pulls(f, ends.drop_last());
        let (edge, t) = ends.last();
        if edge is Requires || edge is BindsTo {
            rest.push(PullView { unit: t, kind: JobType::Start, hard: true })
        } else if (edge is Wants || edge is Upholds) && f.loaded.contains(t) {
            rest.push(PullView { unit: t, kind: JobType::Start, hard: false })
        } else if edge is Requisite {
            rest.push(PullView { unit: t, kind: JobType::VerifyActive, hard: true })
        } else if edge is Conflicts && f.loaded.contains(t) {
            rest.push(PullView { unit: t, kind: JobType::Stop, hard: true })
        } else {
            rest
        }
    }
}

/// Soft pulls of one kind to the loaded units at edges of one of two kinds.
pub open spec fn soft_pulls(
    f: ManagerFacts,
    ends: Seq<(DepEdge, NameView)>,
    one: DepEdge,
    two: DepEdge,
    kind: JobType,
) -> Seq<PullView>
    decreases ends.len(),
{
    if ends.len() == 0 {
        seq![]
    } else {
        let rest = soft_pulls(f, ends.drop_last(), one, two, kind);
        let (edge, t) = ends.last();
        if (edge == one || edge == two) && f.loaded.contains(t) {
            rest.push(PullView { unit: t, kind, hard: false })
        } else {
            rest
        }
    }
}

/// What a job asks for.
pub open spec fn pulls(g: GraphView, f: ManagerFacts, n: NameView, kind: JobType) -> Seq<PullView> {
    let outgoing = graph::targets(g.edges, n);
    let incoming = graph::sources(g.edges, n);
    let starts = start_pulls(f, outgoing);
    let restarts = starts + soft_pulls(
        f,
        incoming,
        DepEdge::PartOf,
        DepEdge::PartOf,
        JobType::TryRestart,
    );
    match kind {
        JobType::Start | JobType::ReloadOrStart => starts,
        JobType::Restart => restarts,
        JobType::TryRestart => if f.active.contains(n) {
            restarts
        } else {
            seq![]
        },
        JobType::Stop => soft_pulls(f, incoming, DepEdge::BindsTo, DepEdge::PartOf, JobType::Stop)
            + soft_pulls(
            f,
            outgoing,
            DepEdge::PropagatesStopTo,
            DepEdge::PropagatesStopTo,
            JobType::Stop,
        ),
        JobType::Reload => soft_pulls(
            f,
            outgoing,
            DepEdge::PropagatesReloadTo,
            DepEdge::PropagatesReloadTo,
            JobType::Reload,
        ),
        JobType::VerifyActive | JobType::Nop => seq![],
    }
}

/// How many of a list of names are not among others.
pub open spec fn missing(names: Seq<NameView>, among: Seq<NameView>) -> nat
    decreases names.len(),
{
    if names.len() == 0 {
        0
    } else {
        missing(names.drop_last(), among) + if among.contains(names.last()) {
            0nat
        } else {
            1nat
        }
    }
}

pub(crate) proof fn lemma_missing_fewer(names: Seq<NameView>, a: Seq<NameView>, b: Seq<NameView>)
    requires
        forall|n: NameView| #[trigger] a.contains(n) ==> b.contains(n),
    ensures
        missing(names, b) <= missing(names, a),
    decreases names.len(),
{
    if names.len() > 0 {
        lemma_missing_fewer(names.drop_last(), a, b);
    }
}

/// Adding one of the missing names leaves fewer missing.
pub proof fn lemma_missing_less(names: Seq<NameView>, a: Seq<NameView>, n: NameView)
    requires
        names.contains(n),
        !a.contains(n),
    ensures
        missing(names, a.push(n)) < missing(names, a),
    decreases names.len(),
{
    let rest = names.drop_last();
    lemma_push_keeps(a, n);
    lemma_missing_fewer(rest, a, a.push(n));
    assert(a.push(n)[a.len() as int] == n);
    if names.last() != n {
        let k = choose|k: int| 0 <= k < names.len() && names[k] == n;
        assert(rest[k] == n);
        lemma_missing_less(rest, a, n);
        if a.push(n).contains(names.last()) {
            let j = choose|j: int| 0 <= j < a.push(n).len() && a.push(n)[j] == names.last();
            assert(a[j] == names.last());
        }
    }
}

proof fn lemma_push_keeps(a: Seq<NameView>, n: NameView)
    ensures
        forall|x: NameView| #[trigger] a.contains(x) ==> a.push(n).contains(x),
{
    assert forall|x: NameView| #[trigger] a.contains(x) implies a.push(n).contains(x) by {
        let k = choose|k: int| 0 <= k < a.len() && a[k] == x;
        assert(a.push(n)[k] == x);
    }
}

/// Jobs with one more and all that it asks for, and the unit, if any, whose
/// absence made it fail. What was queued before the failure stays queued. A
/// unit that has a job already, or stands outside the graph, asks for nothing.
pub open spec fn add_job(
    g: GraphView,
    f: ManagerFacts,
    mode: JobMode,
    q: Queued,
    n: NameView,
    kind: JobType,
) -> (Queued, Option<NameView>)
    decreases missing(g.nodes, q.units), 0nat, 1nat,
{
    if !f.loaded.contains(n) {
        (q, Some(n))
    } else if q.units.contains(n) || mode is IgnoreDependencies || !g.nodes.contains(n) {
        (put(q, n, collapsed(f, n, kind)), None)
    } else {
        proof {
            lemma_missing_less(g.nodes, q.units, n);
        }
        add_pulls(g, f, mode, put(q, n, collapsed(f, n, kind)), pulls(g, f, n, kind))
    }
}

/// Jobs with a list of others that are asked for, in order, up to the first
/// hard one that fails.
pub open spec fn add_pulls(
    g: GraphView,
    f: ManagerFacts,
    mode: JobMode,
    q: Queued,
    ps: Seq<PullView>,
) -> (Queued, Option<NameView>)
    decreases missing(g.nodes, q.units), ps.len(), 0nat,
{
    if ps.len() == 0 {
        (q, None)
    } else {
        let (q1, e) = add_job(g, f, mode, q, ps[0].unit, ps[0].kind);
        if e is Some && ps[0].hard {
            (q1, e)
        } else if missing(g.nodes, q1.units) <= missing(g.nodes, q.units) {
            // Always so: a unit that has a job keeps it.
            add_pulls(g, f, mode, q1, ps.skip(1))
        } else {
            (q1, None)
        }
    }
}

// ---------------------------------------------------------------------
// Isolating
// ---------------------------------------------------------------------

/// The edges that keep a unit when another one is isolated.
pub open spec fn keeps(kind: DepEdge) -> bool {
    kind is Wants || kind is Requires || kind is BindsTo || kind is Upholds || kind is Requisite
        || kind is PartOf || kind is After || kind is Before
}

/// Whether such an edge leads from a unit to another.
pub open spec fn leads(edges: Seq<EdgeView>, a: NameView, b: NameView) -> bool {
    exists|kind: DepEdge| keeps(kind) && #[trigger] edges.contains(EdgeView { from: a, kind, to: b })
}

/// A walk along such edges.
pub open spec fn is_walk(edges: Seq<EdgeView>, s: Seq<NameView>) -> bool {
    &&& s.len() >= 1
    &&& forall|i: int| 0 <= i < s.len() - 1 ==> leads(edges, #[trigger] s[i], s[i + 1])
}

/// Whether a unit belongs to the dependency closure of another.
pub open spec fn in_closure(edges: Seq<EdgeView>, root: NameView, n: NameView) -> bool {
    exists|s: Seq<NameView>| #[trigger] is_walk(edges, s) && s[0] == root && s.last() == n
}

/// Of a list of units, those that isolating another one stops: loaded, outside
/// its closure and not exempt.
pub open spec fn isolate_stops(
    g: GraphView,
    f: ManagerFacts,
    root: NameView,
    names: Seq<NameView>,
) -> Seq<PullView>
    decreases names.len(),
{
    if names.len() == 0 {
        seq![]
    } else {
        let n = names.last();
        let rest = isolate_stops(g, f, root, names.drop_last());
        if f.loaded.contains(n) && !in_closure(g.edges, root, n) && !g.exempt.contains(n) {
            rest.push(PullView { unit: n, kind: JobType::Stop, hard: false })
        } else {
            rest
        }
    }
}

// ---------------------------------------------------------------------
// The whole
// ---------------------------------------------------------------------

/// Whether a job would replace an existing one by one of another kind.
pub open spec fn replaces(q: Queued, j: JobView) -> bool {
    q.units.contains(j.unit) && kind_for(q, j.unit) != j.kind
}

/// The ids of the existing jobs that would be replaced.
pub open spec fn replaced(q: Queued, js: Seq<JobView>) -> Seq<JobId>
    decreases js.len(),
{
    if js.len() == 0 {
        seq![]
    } else if replaces(q, js.last()) {
        replaced(q, js.drop_last()).push(js.last().id)
    } else {
        replaced(q, js.drop_last())
    }
}

/// The existing jobs to cancel: all where the mode flushes, none where it
/// fails instead, else those that would be replaced.
pub open spec fn cancelled(mode: JobMode, q: Queued, js: Seq<JobView>) -> Seq<JobId> {
    match mode {
        JobMode::Flush => js.map_values(|j: JobView| j.id),
        JobMode::Fail => seq![],
        _ => replaced(q, js),
    }
}

/// Whether the mode refuses to replace existing jobs and one would be.
pub open spec fn refused(mode: JobMode, q: Queued, js: Seq<JobView>) -> bool {
    mode is Fail && replaced(q, js).len() > 0
}

/// The id that is handed out after `i` others.
pub open spec fn id_from(next: u32, i: nat) -> u32
    decreases i,
{
    if i == 0 {
        next
    } else {
        job::id_after(id_from(next, (i - 1) as nat))
    }
}

/// The jobs of a transaction: one for each unit in order, with successive ids.
pub open spec fn numbered(
    q: Queued,
    units: Seq<NameView>,
    next: u32,
    mode: JobMode,
) -> Seq<JobView> {
    Seq::new(
        units.len(),
        |i: int|
            JobView {
                id: JobId(id_from(next, i as nat)),
                unit: units[i],
                kind: kind_for(q, units[i]),
                mode,
            },
    )
}

/// The jobs that a request expands to, or the unit whose absence fails it.
pub open spec fn expanded(
    g: GraphView,
    f: ManagerFacts,
    root: NameView,
    kind: JobType,
    mode: JobMode,
) -> (Queued, Option<NameView>) {
    let (q, e) = add_job(g, f, mode, none_queued(), root, kind);
    if e is None && mode is Isolate {
        (add_pulls(g, f, JobMode::Replace, q, isolate_stops(g, f, root, g.nodes)).0, e)
    } else {
        (q, e)
    }
}

/// The order in which jobs run, or a unit on a cycle.
pub open spec fn run_order(g: GraphView, mode: JobMode, units: Seq<NameView>) -> Result<
    Seq<NameView>,
    NameView,
> {
    if mode is IgnoreRequirements {
        Ok(units)
    } else {
        order::topo(g.edges, units)
    }
}

/// The transaction for a request.
pub open spec fn built(
    g: GraphView,
    f: ManagerFacts,
    next: u32,
    root: NameView,
    kind: JobType,
    mode: JobMode,
) -> Result<TransactionView, TransactionErrorView> {
    if kind is VerifyActive && f.active.contains(root) {
        Ok(no_transaction())
    } else if !f.loaded.contains(root) {
        Err(TransactionErrorView::NotLoaded(root))
    } else if mode is Isolate && !f.isolatable.contains(root) {
        Err(TransactionErrorView::IsolateNotAllowed(root))
    } else {
        let (q, e) = expanded(g, f, root, kind, mode);
        match e {
            Some(n) => Err(TransactionErrorView::NotLoaded(n)),
            None => if refused(mode, q, f.jobs) {
                Err(TransactionErrorView::WouldReplaceFail)
            } else {
                match run_order(g, mode, q.units) {
                    Err(n) => Err(TransactionErrorView::Cycle(n)),
                    Ok(units) => Ok(
                        TransactionView {
                            jobs: numbered(q, units, next, mode),
                            cancel: cancelled(mode, q, f.jobs),
                        },
                    ),
                }
            },
        }
    }
}

/// The view of a built transaction.
pub open spec fn built_result(r: Result<Transaction, TransactionError>) -> Result<
    TransactionView,
    TransactionErrorView,
> {
    match r {
        Ok(t) => Ok(t@),
        Err(e) => Err(e@),
    }
}

// ---------------------------------------------------------------------
// Building
// ---------------------------------------------------------------------

/// A job that another one asks for.
struct Pull {
    unit: UnitName,
    kind: JobType,
    hard: bool,
}

impl View for Pull {
    type V = PullView;

    closed spec fn view(&self) -> PullView {
        PullView { unit: self.unit@, kind: self.kind, hard: self.hard }
    }
}

spec fn pulls_view(v: Seq<Pull>) -> Seq<PullView> {
    v.map_values(|p: Pull| p@)
}

/// The jobs being assembled, by unit.
spec fn queued(m: NameMap<JobType>) -> Queued {
    Queued { units: m.keys(), kinds: m.values() }
}

fn push_pull(out: &mut Vec<Pull>, unit: &UnitName, kind: JobType, hard: bool)
    ensures
        pulls_view(final(out)@) == pulls_view(old(out)@).push(PullView { unit: unit@, kind, hard }),
{
    let ghost before = out@;
    out.push(Pull { unit: unit.clone(), kind, hard });
    proof {
        assert(pulls_view(out@) =~= pulls_view(before).push(PullView { unit: unit@, kind, hard }));
    }
}

/// Pull-in expansion for Start/Restart/ReloadOrStart.
fn expand_start<M: ManagerView>(manager: &M, ends: &Vec<(DepEdge, UnitName)>) -> (r: Vec<Pull>)
    ensures
        pulls_view(r@) == start_pulls(manager.facts(), graph::ends_view(ends@)),
{
    let mut out: Vec<Pull> = Vec::new();
    let ghost all = graph::ends_view(ends@);
    let mut i: usize = 0;
    proof {
        assert(pulls_view(out@) =~= seq![]);
    }
    while i < ends.len()
        invariant
            i <= ends.len(),
            all == graph::ends_view(ends@),
            pulls_view(out@) == start_pulls(manager.facts(), all.take(i as int)),
        decreases ends.len() - i,
    {
        proof {
            assert(all.take(i + 1).drop_last() =~= all.take(i as int));
            assert(all.take(i + 1).last() == all[i as int]);
        }
        let t = &ends[i].1;
        match ends[i].0 {
            DepEdge::Requires | DepEdge::BindsTo => {
                push_pull(&mut out, t, JobType::Start, true);
            },
            DepEdge::Wants | DepEdge::Upholds => {
                if manager.is_loaded(t) {
                    push_pull(&mut out, t, JobType::Start, false);
                }
            },
            DepEdge::Requisite => {
                push_pull(&mut out, t, JobType::VerifyActive, true);
            },
            DepEdge::Conflicts => {
                if manager.is_loaded(t) {
                    push_pull(&mut out, t, JobType::Stop, true);
                }
            },
            _ => {},
        }
        i = i + 1;
    }
    proof {
        assert(all.take(all.len() as int) =~= all);
    }
    out
}

/// Adds soft pulls to the loaded units at edges of one of two kinds.
fn expand_soft<M: ManagerView>(
    out: &mut Vec<Pull>,
    manager: &M,
    ends: &Vec<(DepEdge, UnitName)>,
    one: DepEdge,
    two: DepEdge,
    kind: JobType,
)
    ensures
        pulls_view(final(out)@) == pulls_view(old(out)@) + soft_pulls(
            manager.facts(),
            graph::ends_view(ends@),
            one,
            two,
            kind,
        ),
{
    let ghost all = graph::ends_view(ends@);
    let ghost was = pulls_view(out@);
    let mut i: usize = 0;
    proof {
        assert(was + soft_pulls(manager.facts(), all.take(0), one, two, kind) =~= was);
    }
    while i < ends.len()
        invariant
            i <= ends.len(),
            all == graph::ends_view(ends@),
            pulls_view(out@) =~= was + soft_pulls(manager.facts(), all.take(i as int), one, two, kind),
        decreases ends.len() - i,
    {
        proof {
            assert(all.take(i + 1).drop_last() =~= all.take(i as int));
            assert(all.take(i + 1).last() == all[i as int]);
        }
        if (ends[i].0 == one || ends[i].0 == two) && manager.is_loaded(&ends[i].1) {
            push_pull(out, &ends[i].1, kind, false);
        }
        i = i + 1;
    }
    proof {
        assert(all.take(all.len() as int) =~= all);
    }
}

/// What a job asks for.
fn pulls_of<M: ManagerView>(graph: &DepGraph, manager: &M, unit: &UnitName, kind: JobType) -> (r:
    Vec<Pull>)
    ensures
        pulls_view(r@) == pulls(graph@, manager.facts(), unit@, kind),
{
    let outgoing = graph.outgoing(unit);
    let incoming = graph.incoming(unit);
    let mut out: Vec<Pull> = Vec::new();
    proof {
        assert(pulls_view(out@) =~= seq![]);
    }
    match kind {
        JobType::Start | JobType::ReloadOrStart => {
            out = expand_start(manager, &outgoing);
        },
        JobType::Restart => {
            out = expand_start(manager, &outgoing);
            expand_soft(
                &mut out,
                manager,
                &incoming,
                DepEdge::PartOf,
                DepEdge::PartOf,
                JobType::TryRestart,
            );
        },
        JobType::TryRestart => {
            if manager.is_active(unit) {
                out = expand_start(manager, &outgoing);
                expand_soft(
                    &mut out,
                    manager,
                    &incoming,
                    DepEdge::PartOf,
                    DepEdge::PartOf,
                    JobType::TryRestart,
                );
            }
        },
        JobType::Stop => {
            expand_soft(
                &mut out,
                manager,
                &incoming,
                DepEdge::BindsTo,
                DepEdge::PartOf,
                JobType::Stop,
            );
            expand_soft(
                &mut out,
                manager,
                &outgoing,
                DepEdge::PropagatesStopTo,
                DepEdge::PropagatesStopTo,
                JobType::Stop,
            );
        },
        JobType::Reload => {
            expand_soft(
                &mut out,
                manager,
                &outgoing,
                DepEdge::PropagatesReloadTo,
                DepEdge::PropagatesReloadTo,
                JobType::Reload,
            );
        },
        JobType::VerifyActive | JobType::Nop => {},
    }
    proof {
        assert(pulls_view(out@) =~= pulls(graph@, manager.facts(), unit@, kind));
    }
    out
}

/// Insert or merge a job for `unit`.
fn insert_job<M: ManagerView>(
    manager: &M,
    jobs: &mut NameMap<JobType>,
    unit: &UnitName,
    kind: JobType,
) -> (r: bool)
    ensures
        queued(*final(jobs)) == put(
            queued(*old(jobs)),
            unit@,
            collapsed(manager.facts(), unit@, kind),
        ),
        r == !old(jobs).keys().contains(unit@),
{
    let kind = if kind == JobType::TryRestart && !manager.is_active(unit) {
        JobType::Nop
    } else if kind == JobType::VerifyActive && manager.is_active(unit) {
        JobType::Nop
    } else {
        kind
    };
    match jobs.position(unit) {
        Some(i) => {
            proof {
                assert(jobs.keys().index_of(unit@) == i);
            }
            let old_kind = *jobs.value_at(i);
            jobs.set(i, merge_kinds(old_kind, kind));
            false
        },
        None => {
            jobs.insert(unit.clone(), kind);
            true
        },
    }
}

/// A unit outside the graph has no edges.
proof fn lemma_no_edges(g: GraphView, n: NameView, k: int)
    requires
        graph::is_closed(g),
        !g.nodes.contains(n),
        0 <= k <= g.edges.len(),
    ensures
        graph::targets(g.edges.take(k), n) == Seq::<(DepEdge, NameView)>::empty(),
        graph::sources(g.edges.take(k), n) == Seq::<(DepEdge, NameView)>::empty(),
    decreases k,
{
    if k > 0 {
        lemma_no_edges(g, n, k - 1);
        assert(g.edges.take(k).drop_last() =~= g.edges.take(k - 1));
        assert(g.edges.take(k).last() == g.edges[k - 1]);
    }
}

pub(crate) proof fn lemma_no_pulls(g: GraphView, f: ManagerFacts, n: NameView, kind: JobType)
    requires
        graph::is_closed(g),
        !g.nodes.contains(n),
    ensures
        pulls(g, f, n, kind) == Seq::<PullView>::empty(),
{
    lemma_no_edges(g, n, g.edges.len() as int);
    assert(g.edges.take(g.edges.len() as int) =~= g.edges);
    assert(pulls(g, f, n, kind) =~= seq![]);
}

proof fn lemma_put_grows(nodes: Seq<NameView>, q: Queued, n: NameView, kind: JobType)
    ensures
        missing(nodes, put(q, n, kind).units) <= missing(nodes, q.units),
{
    lemma_push_keeps(q.units, n);
    lemma_missing_fewer(nodes, q.units, put(q, n, kind).units);
}

/// Add a job and recursively expand its dependencies. Gives the unit, if any,
/// whose absence made it fail.
fn add_job_and_deps<M: ManagerView>(
    graph: &DepGraph,
    manager: &M,
    mode: JobMode,
    jobs: &mut NameMap<JobType>,
    unit: &UnitName,
    kind: JobType,
) -> (r: Option<UnitName>)
    requires
        graph::is_closed(graph@),
    ensures
        (queued(*final(jobs)), name::opt_name(r)) == add_job(
            graph@,
            manager.facts(),
            mode,
            queued(*old(jobs)),
            unit@,
            kind,
        ),
        missing(graph@.nodes, final(jobs).keys()) <= missing(graph@.nodes, old(jobs).keys()),
    decreases missing(graph@.nodes, old(jobs).keys()), 0nat, 1nat,
{
    let ghost q0 = queued(*jobs);
    let ghost f = manager.facts();
    if !manager.is_loaded(unit) {
        return Some(unit.clone());
    }
    let is_new = insert_job(manager, jobs, unit, kind);
    proof {
        lemma_put_grows(graph@.nodes, q0, unit@, collapsed(f, unit@, kind));
    }
    if !is_new || mode == JobMode::IgnoreDependencies {
        return None;
    }
    let more = pulls_of(graph, manager, unit, kind);
    if more.len() == 0 {
        proof {
            assert(pulls(graph@, f, unit@, kind) =~= seq![]);
        }
        return None;
    }
    proof {
        if !graph@.nodes.contains(unit@) {
            lemma_no_pulls(graph@, f, unit@, kind);
            assert(pulls_view(more@).len() == 0);
        }
        lemma_missing_less(graph@.nodes, q0.units, unit@);
        assert(pulls_view(more@).skip(0) =~= pulls_view(more@));
    }
    add_all(graph, manager, mode, jobs, &more, 0)
}

/// Adds the jobs that are asked for, from position `i` on.
fn add_all<M: ManagerView>(
    graph: &DepGraph,
    manager: &M,
    mode: JobMode,
    jobs: &mut NameMap<JobType>,
    more: &Vec<Pull>,
    i: usize,
) -> (r: Option<UnitName>)
    requires
        graph::is_closed(graph@),
        i <= more@.len(),
    ensures
        (queued(*final(jobs)), name::opt_name(r)) == add_pulls(
            graph@,
            manager.facts(),
            mode,
            queued(*old(jobs)),
            pulls_view(more@).skip(i as int),
        ),
        missing(graph@.nodes, final(jobs).keys()) <= missing(graph@.nodes, old(jobs).keys()),
    decreases missing(graph@.nodes, old(jobs).keys()), more@.len() - i, 0nat,
{
    if i == more.len() {
        proof {
            assert(pulls_view(more@).skip(i as int) =~= seq![]);
        }
        return None;
    }
    proof {
        assert(pulls_view(more@).skip(i as int)[0] == more@[i as int]@);
        assert(pulls_view(more@).skip(i as int).skip(1) =~= pulls_view(more@).skip(i + 1));
    }
    let e = add_job_and_deps(graph, manager, mode, jobs, &more[i].unit, more[i].kind);
    if e.is_some() && more[i].hard {
        return e;
    }
    add_all(graph, manager, mode, jobs, more, i + 1)
}

proof fn lemma_walk_on(edges: Seq<EdgeView>, root: NameView, a: NameView, b: NameView)
    requires
        in_closure(edges, root, a),
        leads(edges, a, b),
    ensures
        in_closure(edges, root, b),
{
    let s = choose|s: Seq<NameView>| #[trigger] is_walk(edges, s) && s[0] == root && s.last() == a;
    let t = s.push(b);
    assert forall|i: int| 0 <= i < t.len() - 1 implies leads(edges, #[trigger] t[i], t[i + 1]) by {
        if i < s.len() - 1 {
            assert(t[i] == s[i] && t[i + 1] == s[i + 1]);
        }
    }
    assert(is_walk(edges, t));
    assert(t[0] == root && t.last() == b);
}

/// A set with the root that no edge leaves holds the whole closure.
proof fn lemma_closed_set(edges: Seq<EdgeView>, seen: Seq<NameView>, s: Seq<NameView>, k: int)
    requires
        is_walk(edges, s),
        seen.contains(s[0]),
        forall|a: NameView, b: NameView|
            seen.contains(a) && #[trigger] leads(edges, a, b) ==> seen.contains(b),
        0 <= k < s.len(),
    ensures
        seen.contains(s[k]),
    decreases k,
{
    if k > 0 {
        lemma_closed_set(edges, seen, s, k - 1);
        assert(leads(edges, s[k - 1], s[k - 1 + 1]));
    }
}

fn is_kept(kind: DepEdge) -> (r: bool)
    ensures
        r == keeps(kind),
{
    matches!(
        kind,
        DepEdge::Wants | DepEdge::Requires | DepEdge::BindsTo | DepEdge::Upholds
            | DepEdge::Requisite | DepEdge::PartOf | DepEdge::After | DepEdge::Before
    )
}

/// Puts the units that edges lead to on a stack.
fn push_kept(graph: &DepGraph, u: &UnitName, stack: &mut Vec<UnitName>)
    ensures
        forall|n: NameView|
            #[trigger] name_set::names_view(final(stack)@).contains(n) == (name_set::names_view(
                old(stack)@,
            ).contains(n) || leads(graph@.edges, u@, n)),
        graph::targets(graph@.edges, u@).len() == 0 ==> final(stack)@ == old(stack)@,
{
    let ends = graph.outgoing(u);
    let ghost all = graph::ends_view(ends@);
    let ghost st0 = name_set::names_view(stack@);
    let mut i: usize = 0;
    while i < ends.len()
        invariant
            i <= ends.len(),
            all == graph::ends_view(ends@),
            all.len() == 0 ==> stack@ == old(stack)@,
            forall|n: NameView|
                #[trigger] name_set::names_view(stack@).contains(n) ==> st0.contains(n) || exists|
                    k: int,
                |
                    0 <= k < i && keeps((#[trigger] all[k]).0) && all[k].1 == n,
            forall|n: NameView|
                st0.contains(n) ==> #[trigger] name_set::names_view(stack@).contains(n),
            forall|k: int|
                0 <= k < i && keeps((#[trigger] all[k]).0) ==> name_set::names_view(
                    stack@,
                ).contains(all[k].1),
        decreases ends.len() - i,
    {
        if is_kept(ends[i].0) {
            let ghost before = name_set::names_view(stack@);
            let n = ends[i].1.clone();
            stack.push(n);
            proof {
                let after = name_set::names_view(stack@);
                assert(after =~= before.push(n@));
                lemma_push_keeps(before, n@);
                assert(after[before.len() as int] == n@);
                assert(all[i as int] == (ends@[i as int].0, n@));
                assert forall|x: NameView| st0.contains(x) implies #[trigger] after.contains(
                    x,
                ) by {
                    assert(before.contains(x));
                }
                assert forall|x: NameView| #[trigger] after.contains(x) implies st0.contains(x)
                    || exists|k: int|
                    0 <= k < i + 1 && keeps((#[trigger] all[k]).0) && all[k].1 == x by {
                    let j = choose|j: int| 0 <= j < after.len() && after[j] == x;
                    if j < before.len() {
                        assert(before[j] == x);
                        assert(before.contains(x));
                    } else {
                        assert(all[i as int].1 == x);
                    }
                }
            }
        }
        i = i + 1;
    }
    proof {
        assert forall|n: NameView|
            #[trigger] name_set::names_view(stack@).contains(n) == (st0.contains(n) || leads(
                graph@.edges,
                u@,
                n,
            )) by {
            let edges = graph@.edges;
            if name_set::names_view(stack@).contains(n) && !st0.contains(n) {
                let k = choose|k: int|
                    0 <= k < all.len() && keeps((#[trigger] all[k]).0) && all[k].1 == n;
                let e = EdgeView { from: u@, kind: all[k].0, to: n };
                graph::forward_and_reverse_agree(edges, e);
                assert(all.contains((e.kind, e.to)));
                assert(edges.contains(e));
            }
            if leads(edges, u@, n) {
                let kind = choose|kind: DepEdge|
                    keeps(kind) && #[trigger] edges.contains(EdgeView { from: u@, kind, to: n });
                graph::forward_and_reverse_agree(edges, EdgeView { from: u@, kind, to: n });
                let k = choose|k: int| 0 <= k < all.len() && all[k] == (kind, n);
                assert(keeps(all[k].0));
            }
        }
    }
}

/// Pull-edge closure starting at `root`.
fn dep_closure(graph: &DepGraph, root: &UnitName) -> (r: NameTable)
    requires
        graph::is_closed(graph@),
    ensures
        forall|n: NameView| #[trigger] r@.contains(n) == in_closure(graph@.edges, root@, n),
{
    let ghost edges = graph@.edges;
    let mut seen = NameTable::new();
    let mut stack: Vec<UnitName> = Vec::new();
    stack.push(root.clone());
    proof {
        let st = name_set::names_view(stack@);
        assert(st[0] == root@);
        assert(is_walk(edges, seq![root@]));
        assert(seq![root@].last() == root@);
        assert forall|n: NameView| #[trigger] st.contains(n) implies in_closure(
            edges,
            root@,
            n,
        ) by {
            assert(seq![root@][0] == root@);
        }
    }
    while stack.len() > 0
        invariant
            edges == graph@.edges,
            graph::is_closed(graph@),
            seen@.contains(root@) || name_set::names_view(stack@).contains(root@),
            forall|n: NameView| #[trigger] seen@.contains(n) ==> in_closure(edges, root@, n),
            forall|n: NameView|
                #[trigger] name_set::names_view(stack@).contains(n) ==> in_closure(edges, root@, n),
            forall|a: NameView, b: NameView|
                seen@.contains(a) && #[trigger] leads(edges, a, b) ==> seen@.contains(b)
                    || name_set::names_view(stack@).contains(b),
        decreases missing(graph@.nodes, seen@), stack@.len(),
    {
        let ghost st0 = name_set::names_view(stack@);
        let ghost seen0 = seen@;
        let popped = stack.pop();
        let ghost st1 = name_set::names_view(stack@);
        proof {
            assert(st0 =~= st1.push(st0.last()));
            lemma_push_keeps(st1, st0.last());
            assert(st0.contains(st0.last()));
            assert forall|n: NameView| #[trigger] st0.contains(n) implies st1.contains(n) || n
                == st0.last() by {
                let k = choose|k: int| 0 <= k < st0.len() && st0[k] == n;
                if k < st1.len() {
                    assert(st1[k] == n);
                }
            }
        }
        if let Some(u) = popped {
            let (_, fresh) = seen.insert(u.clone());
            proof {
                lemma_push_keeps(seen0, u@);
                assert(fresh ==> seen@[seen0.len() as int] == u@);
                assert forall|n: NameView| #[trigger] seen@.contains(n) implies seen0.contains(n)
                    || n == u@ by {
                    let k = choose|k: int| 0 <= k < seen@.len() && seen@[k] == n;
                    if k < seen0.len() {
                        assert(seen0[k] == n);
                    }
                }
                if fresh && graph@.nodes.contains(u@) {
                    lemma_missing_less(graph@.nodes, seen0, u@);
                } else {
                    lemma_missing_fewer(graph@.nodes, seen0, seen@);
                }
            }
            if fresh {
                push_kept(graph, &u, &mut stack);
                proof {
                    if !graph@.nodes.contains(u@) {
                        lemma_no_edges(graph@, u@, edges.len() as int);
                        assert(edges.take(edges.len() as int) =~= edges);
                    }
                    let st2 = name_set::names_view(stack@);
                    assert forall|n: NameView| #[trigger] st2.contains(n) implies in_closure(
                        edges,
                        root@,
                        n,
                    ) by {
                        if !st1.contains(n) {
                            lemma_walk_on(edges, root@, u@, n);
                        }
                    }
                    assert forall|a: NameView, b: NameView|
                        seen@.contains(a) && #[trigger] leads(edges, a, b) implies seen@.contains(b)
                        || st2.contains(b) by {
                        if a == u@ {
                            assert(st2.contains(b));
                        } else {
                            assert(seen0.contains(a));
                            assert(seen0.contains(b) || st0.contains(b));
                            assert(seen@.contains(u@));
                        }
                    }
                    assert(seen@.contains(root@) || st2.contains(root@));
                }
            }
        }
    }
    proof {
        assert(name_set::names_view(stack@) =~= seq![]);
        assert forall|n: NameView| #[trigger] seen@.contains(n) == in_closure(
            edges,
            root@,
            n,
        ) by {
            if in_closure(edges, root@, n) {
                let s = choose|s: Seq<NameView>|
                    #[trigger] is_walk(edges, s) && s[0] == root@ && s.last() == n;
                lemma_closed_set(edges, seen@, s, s.len() - 1);
            }
        }
    }
    seen
}

/// The stops that isolating `root` asks for.
fn isolate_stops_of<M: ManagerView>(graph: &DepGraph, manager: &M, root: &UnitName) -> (r: Vec<
    Pull,
>)
    ensures
        pulls_view(r@) == isolate_stops(graph@, manager.facts(), root@, graph@.nodes),
{
    let nodes = graph.nodes();
    let closure = dep_closure(graph, root);
    let ghost all = graph@.nodes;
    let mut out: Vec<Pull> = Vec::new();
    let mut i: usize = 0;
    proof {
        assert(pulls_view(out@) =~= seq![]);
    }
    while i < nodes.len()
        invariant
            i <= nodes.len(),
            all == graph@.nodes,
            all == name_set::names_view(nodes@),
            forall|n: NameView|
                #[trigger] closure@.contains(n) == in_closure(graph@.edges, root@, n),
            pulls_view(out@) == isolate_stops(
                graph@,
                manager.facts(),
                root@,
                all.take(i as int),
            ),
        decreases nodes.len() - i,
    {
        let n = &nodes[i];
        proof {
            assert(all.take(i + 1).drop_last() =~= all.take(i as int));
            assert(all.take(i + 1).last() == n@);
        }
        if manager.is_loaded(n) && !closure.contains(n) && !graph.ignore_on_isolate(n) {
            push_pull(&mut out, n, JobType::Stop, false);
        }
        i = i + 1;
    }
    proof {
        assert(all.take(all.len() as int) =~= all);
    }
    out
}

/// The ids of the existing jobs that would be replaced.
fn replaced_ids(jobs: &NameMap<JobType>, existing: &[Job]) -> (r: Vec<JobId>)
    ensures
        r@ == replaced(queued(*jobs), job::jobs_view(existing@)),
{
    let ghost all = job::jobs_view(existing@);
    let mut out: Vec<JobId> = Vec::new();
    let mut i: usize = 0;
    while i < existing.len()
        invariant
            i <= existing.len(),
            all == job::jobs_view(existing@),
            out@ == replaced(queued(*jobs), all.take(i as int)),
        decreases existing.len() - i,
    {
        proof {
            assert(all.take(i + 1).drop_last() =~= all.take(i as int));
            assert(all.take(i + 1).last() == existing@[i as int]@);
        }
        if let Some(kind) = jobs.get(&existing[i].unit) {
            if *kind != existing[i].kind {
                out.push(existing[i].id);
            }
        }
        i = i + 1;
    }
    proof {
        assert(all.take(all.len() as int) =~= all);
    }
    out
}

/// The ids of all existing jobs.
fn all_ids(existing: &[Job]) -> (r: Vec<JobId>)
    ensures
        r@ == job::jobs_view(existing@).map_values(|j: JobView| j.id),
{
    let ghost all = job::jobs_view(existing@).map_values(|j: JobView| j.id);
    let mut out: Vec<JobId> = Vec::new();
    let mut i: usize = 0;
    while i < existing.len()
        invariant
            i <= existing.len(),
            all == job::jobs_view(existing@).map_values(|j: JobView| j.id),
            out@ == all.take(i as int),
        decreases existing.len() - i,
    {
        out.push(existing[i].id);
        proof {
            assert(all.take(i + 1) =~= all.take(i as int).push(all[i as int]));
        }
        i = i + 1;
    }
    proof {
        assert(all.take(all.len() as int) =~= all);
    }
    out
}

/// Resolve interaction with existing jobs based on the mode: the existing job
/// ids to cancel, or `None` where the mode refuses.
fn apply_mode(jobs: &NameMap<JobType>, existing: &[Job], mode: JobMode) -> (r: Option<Vec<JobId>>)
    ensures
        match r {
            Some(ids) => !refused(mode, queued(*jobs), job::jobs_view(existing@)) && ids@
                == cancelled(mode, queued(*jobs), job::jobs_view(existing@)),
            None => refused(mode, queued(*jobs), job::jobs_view(existing@)),
        },
{
    match mode {
        JobMode::Flush => Some(all_ids(existing)),
        JobMode::Fail => {
            if replaced_ids(jobs, existing).len() > 0 {
                None
            } else {
                Some(Vec::new())
            }
        },
        _ => Some(replaced_ids(jobs, existing)),
    }
}

/// One job for each unit in order, with successive ids.
fn number_jobs(
    jobs: &NameMap<JobType>,
    units: Vec<UnitName>,
    ids: &mut JobIdAlloc,
    mode: JobMode,
) -> (r: Vec<Job>)
    requires
        forall|n: NameView|
            #[trigger] name_set::names_view(units@).contains(n) ==> jobs.keys().contains(n),
    ensures
        job::jobs_view(r@) == numbered(
            queued(*jobs),
            name_set::names_view(units@),
            old(ids)@,
            mode,
        ),
        final(ids)@ == id_from(old(ids)@, units@.len()),
{
    let ghost us = name_set::names_view(units@);
    let ghost start = ids@;
    let ghost all = numbered(queued(*jobs), us, start, mode);
    let mut out: Vec<Job> = Vec::new();
    let mut i: usize = 0;
    proof {
        assert(job::jobs_view(out@) =~= all.take(0));
    }
    while i < units.len()
        invariant
            i <= units.len(),
            us == name_set::names_view(units@),
            all == numbered(queued(*jobs), us, start, mode),
            forall|n: NameView| #[trigger] us.contains(n) ==> jobs.keys().contains(n),
            ids@ == id_from(start, i as nat),
            job::jobs_view(out@) == all.take(i as int),
        decreases units.len() - i,
    {
        proof {
            assert(us[i as int] == units@[i as int]@);
            assert(us.contains(units@[i as int]@));
        }
        if let Some(kind) = jobs.get(&units[i]) {
            let id = ids.allocate();
            let ghost before = out@;
            out.push(Job::new(id, units[i].clone(), *kind, mode));
            proof {
                assert(job::jobs_view(out@) =~= job::jobs_view(before).push(all[i as int]));
                assert(all.take(i + 1) =~= all.take(i as int).push(all[i as int]));
            }
        }
        i = i + 1;
    }
    proof {
        assert(all.take(all.len() as int) =~= all);
    }
    out
}

impl Transaction {
    /// Build a transaction from a root job request. Ids are taken from `ids`,
    /// one for each job, when the transaction can be built.
    pub fn build<M: ManagerView>(
        graph: &DepGraph,
        manager: &M,
        ids: &mut JobIdAlloc,
        root_unit: UnitName,
        root_kind: JobType,
        mode: JobMode,
    ) -> (r: Result<Self, TransactionError>)
        ensures
            built_result(r) == built(
                graph@,
                manager.facts(),
                old(ids)@,
                root_unit@,
                root_kind,
                mode,
            ),
            final(ids)@ == match r {
                Ok(t) => id_from(old(ids)@, t.jobs@.len()),
                Err(_) => old(ids)@,
            },
    {
        if root_kind == JobType::VerifyActive && manager.is_active(&root_unit) {
            let none = Transaction::default();
            proof {
                assert(none@.jobs.len() == none.jobs@.len());
            }
            return Ok(none);
        }
        if !manager.is_loaded(&root_unit) {
            return Err(TransactionError::NotLoaded(root_unit));
        }
        if mode == JobMode::Isolate && !manager.allow_isolate(&root_unit) {
            return Err(TransactionError::IsolateNotAllowed(root_unit));
        }
        let _ = graph.nodes();
        let mut jobs: NameMap<JobType> = NameMap::new();
        proof {
            assert(queued(jobs) =~= none_queued());
        }
        if let Some(n) = add_job_and_deps(
            graph,
            manager,
            mode,
            &mut jobs,
            &root_unit,
            root_kind,
        ) {
            return Err(TransactionError::NotLoaded(n));
        }
        if mode == JobMode::Isolate {
            let stops = isolate_stops_of(graph, manager, &root_unit);
            proof {
                assert(pulls_view(stops@).skip(0) =~= pulls_view(stops@));
            }
            let _ = add_all(graph, manager, JobMode::Replace, &mut jobs, &stops, 0);
        }
        let cancel = match apply_mode(&jobs, manager.existing_jobs(), mode) {
            Some(ids) => ids,
            None => {
                return Err(TransactionError::WouldReplaceFail);
            },
        };
        let names = jobs.names();
        let order = if mode == JobMode::IgnoreRequirements {
            names
        } else {
            match graph.topo_order(&names) {
                Ok(order) => order,
                Err(n) => {
                    return Err(TransactionError::Cycle(n));
                },
            }
        };
        proof {
            if !(mode is IgnoreRequirements) {
                order::order_keeps_the_units(graph@.edges, jobs.keys());
            }
        }
        let numbered_jobs = number_jobs(&jobs, order, ids, mode);
        proof {
            assert(numbered_jobs@.len() == job::jobs_view(numbered_jobs@).len());
        }
        Ok(Transaction { jobs: numbered_jobs, cancel })
    }

    /// Convenience: a single-job transaction without expansion.
    pub fn root(unit: UnitName, kind: JobType, mode: JobMode) -> (r: Self)
        ensures
            r@ == (TransactionView {
                jobs: seq![JobView { id: JobId(0), unit: unit@, kind, mode }],
                cancel: seq![],
            }),
    {
        let mut t = Transaction::default();
        t.jobs.push(Job::new(JobId::placeholder(), unit, kind, mode));
        proof {
            assert(t@ =~= (TransactionView {
                jobs: seq![JobView { id: JobId(0), unit: unit@, kind, mode }],
                cancel: seq![],
            }));
        }
        t
    }
}

// ---------------------------------------------------------------------
// Laws
// ---------------------------------------------------------------------

/// Merging a kind with itself gives it back, `Nop` changes nothing, and start
/// and stop make a restart in either order.
pub proof fn merging_kinds(a: JobType)
    ensures
        merged(a, a) == a,
        merged(a, JobType::Nop) == a,
        merged(JobType::Nop, a) == a,
        merged(JobType::Start, JobType::Stop) == JobType::Restart,
        merged(JobType::Stop, JobType::Start) == JobType::Restart,
        merged(a, JobType::Restart) == JobType::Restart,
        merged(JobType::Restart, a) == JobType::Restart,
{
}

/// What holds of the jobs being assembled.
pub open spec fn sound(f: ManagerFacts, q: Queued) -> bool {
    &&& q.units.no_duplicates()
    &&& q.units.len() == q.kinds.len()
    &&& forall|n: NameView| #[trigger] q.units.contains(n) ==> f.loaded.contains(n)
}

/// Whether every unit that had a job still has one.
pub open spec fn grown(a: Queued, b: Queued) -> bool {
    forall|n: NameView| #[trigger] a.units.contains(n) ==> b.units.contains(n)
}

pub(crate) proof fn lemma_put(f: ManagerFacts, q: Queued, n: NameView, kind: JobType)
    requires
        sound(f, q),
        f.loaded.contains(n),
    ensures
        sound(f, put(q, n, kind)),
        grown(q, put(q, n, kind)),
        put(q, n, kind).units.contains(n),
{
    let r = put(q, n, kind);
    lemma_push_keeps(q.units, n);
    if !q.units.contains(n) {
        assert(r.units[q.units.len() as int] == n);
        assert forall|x: NameView| #[trigger] r.units.contains(x) implies f.loaded.contains(x) by {
            let k = choose|k: int| 0 <= k < r.units.len() && r.units[k] == x;
            if k < q.units.len() {
                assert(q.units[k] == x);
                assert(q.units.contains(x));
            }
        }
        assert forall|i: int, j: int|
            0 <= i < r.units.len() && 0 <= j < r.units.len() && i != j implies r.units[i]
            != r.units[j] by {
            if i < q.units.len() {
                assert(q.units[i] == r.units[i]);
            }
            if j < q.units.len() {
                assert(q.units[j] == r.units[j]);
            }
        }
    }
}

pub(crate) proof fn lemma_add_job(
    g: GraphView,
    f: ManagerFacts,
    mode: JobMode,
    q: Queued,
    n: NameView,
    kind: JobType,
)
    requires
        sound(f, q),
    ensures
        sound(f, add_job(g, f, mode, q, n, kind).0),
        grown(q, add_job(g, f, mode, q, n, kind).0),
        add_job(g, f, mode, q, n, kind).1 is None ==> f.loaded.contains(n),
        f.loaded.contains(n) ==> add_job(g, f, mode, q, n, kind).0.units.contains(n),
    decreases missing(g.nodes, q.units), 0nat, 1nat,
{
    if f.loaded.contains(n) {
        let q1 = put(q, n, collapsed(f, n, kind));
        lemma_put(f, q, n, collapsed(f, n, kind));
        if !(q.units.contains(n) || mode is IgnoreDependencies || !g.nodes.contains(n)) {
            lemma_missing_less(g.nodes, q.units, n);
            lemma_add_pulls(g, f, mode, q1, pulls(g, f, n, kind));
        }
    }
}

pub(crate) proof fn lemma_add_pulls(g: GraphView, f: ManagerFacts, mode: JobMode, q: Queued, ps: Seq<PullView>)
    requires
        sound(f, q),
    ensures
        sound(f, add_pulls(g, f, mode, q, ps).0),
        grown(q, add_pulls(g, f, mode, q, ps).0),
        add_pulls(g, f, mode, q, ps).1 is None ==> forall|i: int|
            0 <= i < ps.len() && ((#[trigger] ps[i]).hard || f.loaded.contains(ps[i].unit))
                ==> add_pulls(g, f, mode, q, ps).0.units.contains(ps[i].unit),
    decreases missing(g.nodes, q.units), ps.len(), 0nat,
{
    if ps.len() > 0 {
        let (q1, e) = add_job(g, f, mode, q, ps[0].unit, ps[0].kind);
        lemma_add_job(g, f, mode, q, ps[0].unit, ps[0].kind);
        lemma_missing_fewer(g.nodes, q.units, q1.units);
        if !(e is Some && ps[0].hard) {
            let rest = ps.skip(1);
            lemma_add_pulls(g, f, mode, q1, rest);
            let r = add_pulls(g, f, mode, q, ps);
            assert(r == add_pulls(g, f, mode, q1, rest));
            if r.1 is None {
                assert forall|i: int|
                    0 <= i < ps.len() && ((#[trigger] ps[i]).hard || f.loaded.contains(
                        ps[i].unit,
                    )) implies r.0.units.contains(ps[i].unit) by {
                    if i == 0 {
                        assert(q1.units.contains(ps[0].unit));
                    } else {
                        assert(rest[i - 1] == ps[i]);
                    }
                }
            }
        }
    }
}

proof fn lemma_expanded(
    g: GraphView,
    f: ManagerFacts,
    root: NameView,
    kind: JobType,
    mode: JobMode,
)
    ensures
        sound(f, expanded(g, f, root, kind, mode).0),
        expanded(g, f, root, kind, mode).1 is None ==> expanded(
            g,
            f,
            root,
            kind,
            mode,
        ).0.units.contains(root),
{
    let (q, e) = add_job(g, f, mode, none_queued(), root, kind);
    lemma_add_job(g, f, mode, none_queued(), root, kind);
    if e is None && mode is Isolate {
        lemma_add_pulls(g, f, JobMode::Replace, q, isolate_stops(g, f, root, g.nodes));
    }
}

/// Whether a request is answered by an empty transaction: its unit is to be
/// verified active, and is.
pub open spec fn settled(f: ManagerFacts, root: NameView, kind: JobType) -> bool {
    kind is VerifyActive && f.active.contains(root)
}

/// Whether a transaction has a job for a unit.
pub open spec fn has_job(t: TransactionView, n: NameView) -> bool {
    exists|i: int| 0 <= i < t.jobs.len() && (#[trigger] t.jobs[i]).unit == n
}

pub(crate) proof fn lemma_built(
    g: GraphView,
    f: ManagerFacts,
    next: u32,
    root: NameView,
    kind: JobType,
    mode: JobMode,
)
    requires
        built(g, f, next, root, kind, mode) is Ok,
        !settled(f, root, kind),
    ensures
        ({
            let t = built(g, f, next, root, kind, mode)->Ok_0;
            let (q, e) = expanded(g, f, root, kind, mode);
            let us = run_order(g, mode, q.units)->Ok_0;
            &&& e is None
            &&& sound(f, q)
            &&& q.units.contains(root)
            &&& t.jobs == numbered(q, us, next, mode)
            &&& us.len() == q.units.len()
            &&& us.no_duplicates()
            &&& forall|n: NameView| #[trigger] us.contains(n) == q.units.contains(n)
            &&& forall|n: NameView| #[trigger] has_job(t, n) == q.units.contains(n)
        }),
{
    let t = built(g, f, next, root, kind, mode)->Ok_0;
    let (q, e) = expanded(g, f, root, kind, mode);
    lemma_expanded(g, f, root, kind, mode);
    let us = run_order(g, mode, q.units)->Ok_0;
    if !(mode is IgnoreRequirements) {
        order::order_keeps_the_units(g.edges, q.units);
    }
    assert forall|n: NameView| #[trigger] has_job(t, n) == q.units.contains(n) by {
        if has_job(t, n) {
            let i = choose|i: int| 0 <= i < t.jobs.len() && (#[trigger] t.jobs[i]).unit == n;
            assert(us[i] == n);
            assert(us.contains(n));
        }
        if q.units.contains(n) {
            assert(us.contains(n));
            let i = choose|i: int| 0 <= i < us.len() && us[i] == n;
            assert(t.jobs[i].unit == n);
        }
    }
}

/// A transaction has one job for each of its units, and every one of them is
/// loaded; the unit that was asked for is among them.
pub proof fn one_job_per_loaded_unit(
    g: GraphView,
    f: ManagerFacts,
    next: u32,
    root: NameView,
    kind: JobType,
    mode: JobMode,
)
    requires
        built(g, f, next, root, kind, mode) is Ok,
        !settled(f, root, kind),
    ensures
        ({
            let t = built(g, f, next, root, kind, mode)->Ok_0;
            &&& has_job(t, root)
            &&& forall|i: int|
                0 <= i < t.jobs.len() ==> f.loaded.contains((#[trigger] t.jobs[i]).unit)
            &&& forall|i: int, j: int|
                0 <= i < j < t.jobs.len() ==> (#[trigger] t.jobs[i]).unit != (
                #[trigger] t.jobs[j]).unit
        }),
{
    lemma_built(g, f, next, root, kind, mode);
    let t = built(g, f, next, root, kind, mode)->Ok_0;
    let (q, e) = expanded(g, f, root, kind, mode);
    let us = run_order(g, mode, q.units)->Ok_0;
    assert(has_job(t, root));
    assert forall|i: int| 0 <= i < t.jobs.len() implies f.loaded.contains(
        (#[trigger] t.jobs[i]).unit,
    ) by {
        assert(us[i] == t.jobs[i].unit);
        assert(us.contains(us[i]));
    }
    assert forall|i: int, j: int| 0 <= i < j < t.jobs.len() implies (#[trigger] t.jobs[i]).unit != (
    #[trigger] t.jobs[j]).unit by {
        assert(us[i] != us[j]);
    }
}

/// Jobs run in start order: where a unit starts before another, its job comes
/// first, unless the mode skips ordering.
pub proof fn jobs_run_in_start_order(
    g: GraphView,
    f: ManagerFacts,
    next: u32,
    root: NameView,
    kind: JobType,
    mode: JobMode,
    i: int,
    j: int,
)
    requires
        built(g, f, next, root, kind, mode) is Ok,
        !settled(f, root, kind),
        !(mode is IgnoreRequirements),
        0 <= i < built(g, f, next, root, kind, mode)->Ok_0.jobs.len(),
        0 <= j < built(g, f, next, root, kind, mode)->Ok_0.jobs.len(),
        order::precedes(
            g.edges,
            built(g, f, next, root, kind, mode)->Ok_0.jobs[i].unit,
            built(g, f, next, root, kind, mode)->Ok_0.jobs[j].unit,
        ),
    ensures
        i < j,
{
    lemma_built(g, f, next, root, kind, mode);
    let (q, e) = expanded(g, f, root, kind, mode);
    let us = run_order(g, mode, q.units)->Ok_0;
    assert(us.contains(us[i]));
    assert(q.units.contains(us[i]));
    order::order_respects_edges(g.edges, q.units, j, us[i]);
    let k = choose|k: int| 0 <= k < j && #[trigger] us[k] == us[i];
    assert(k == i);
}

/// Of two units with jobs, one that is `Before=` the other has the earlier job,
/// and one that is `After=` the other the later, whatever the request, unless the
/// mode skips ordering.
pub proof fn jobs_follow_the_edges(
    g: GraphView,
    f: ManagerFacts,
    next: u32,
    root: NameView,
    kind: JobType,
    mode: JobMode,
)
    requires
        built(g, f, next, root, kind, mode) is Ok,
        !(mode is IgnoreRequirements),
    ensures
        ({
            let jobs = built(g, f, next, root, kind, mode)->Ok_0.jobs;
            &&& forall|e: EdgeView, i: int, j: int|
                #![trigger g.edges.contains(e), jobs[i], jobs[j]]
                g.edges.contains(e) && e.kind is Before && 0 <= i < jobs.len() && 0 <= j
                    < jobs.len() && jobs[i].unit == e.from && jobs[j].unit == e.to ==> i < j
            &&& forall|e: EdgeView, i: int, j: int|
                #![trigger g.edges.contains(e), jobs[i], jobs[j]]
                g.edges.contains(e) && e.kind is After && 0 <= i < jobs.len() && 0 <= j
                    < jobs.len() && jobs[i].unit == e.from && jobs[j].unit == e.to ==> j < i
        }),
{
    let jobs = built(g, f, next, root, kind, mode)->Ok_0.jobs;
    if settled(f, root, kind) {
        assert(jobs.len() == 0);
    } else {
        lemma_built(g, f, next, root, kind, mode);
        let (q, _) = expanded(g, f, root, kind, mode);
        let us = run_order(g, mode, q.units)->Ok_0;
        order::before_and_after_hold(g.edges, q.units);
        assert forall|i: int| 0 <= i < jobs.len() implies (#[trigger] jobs[i]).unit == us[i] by {}
    }
}

/// Bypassing dependencies leaves the job that was asked for alone.
pub proof fn ignoring_dependencies_keeps_only_root(
    g: GraphView,
    f: ManagerFacts,
    next: u32,
    root: NameView,
    kind: JobType,
)
    requires
        built(g, f, next, root, kind, JobMode::IgnoreDependencies) is Ok,
        !settled(f, root, kind),
    ensures
        built(g, f, next, root, kind, JobMode::IgnoreDependencies)->Ok_0.jobs == seq![
            JobView {
                id: JobId(next),
                unit: root,
                kind: collapsed(f, root, kind),
                mode: JobMode::IgnoreDependencies,
            },
        ],
{
    let mode = JobMode::IgnoreDependencies;
    lemma_built(g, f, next, root, kind, mode);
    let t = built(g, f, next, root, kind, mode)->Ok_0;
    let (q, e) = expanded(g, f, root, kind, mode);
    let us = run_order(g, mode, q.units)->Ok_0;
    assert(q.units =~= seq![root]);
    assert(q.kinds =~= seq![collapsed(f, root, kind)]);
    assert(us.contains(us[0]));
    assert(q.units.contains(us[0]));
    assert(us[0] == root);
    assert(q.units[q.units.index_of(root)] == root);
    assert(t.jobs.len() == 1);
    assert(id_from(next, 0) == next);
    assert(t.jobs =~= seq![
        JobView { id: JobId(next), unit: root, kind: collapsed(f, root, kind), mode },
    ]);
}

/// Flushing cancels every existing job; failing cancels none; every other mode
/// cancels those that a new job replaces, and no others.
pub proof fn modes_cancel_existing_jobs(
    g: GraphView,
    f: ManagerFacts,
    next: u32,
    root: NameView,
    kind: JobType,
    mode: JobMode,
)
    requires
        built(g, f, next, root, kind, mode) is Ok,
        !settled(f, root, kind),
    ensures
        ({
            let t = built(g, f, next, root, kind, mode)->Ok_0;
            let q = expanded(g, f, root, kind, mode).0;
            &&& mode is Flush ==> t.cancel == f.jobs.map_values(|j: JobView| j.id)
            &&& mode is Fail ==> t.cancel == Seq::<JobId>::empty() && forall|i: int|
                0 <= i < f.jobs.len() ==> !replaces(q, #[trigger] f.jobs[i])
            &&& !(mode is Flush) && !(mode is Fail) ==> forall|id: JobId| #[trigger]
                t.cancel.contains(id) == exists|i: int|
                    0 <= i < f.jobs.len() && (#[trigger] f.jobs[i]).id == id && replaces(
                        q,
                        f.jobs[i],
                    )
        }),
{
    let t = built(g, f, next, root, kind, mode)->Ok_0;
    let q = expanded(g, f, root, kind, mode).0;
    lemma_replaced(q, f.jobs);
    if mode is Fail {
        assert forall|i: int| 0 <= i < f.jobs.len() implies !replaces(q, #[trigger] f.jobs[i]) by {
            if replaces(q, f.jobs[i]) {
                assert(replaced(q, f.jobs).contains(f.jobs[i].id));
            }
        }
    }
}

proof fn lemma_replaced(q: Queued, js: Seq<JobView>)
    ensures
        forall|id: JobId| #[trigger]
            replaced(q, js).contains(id) == exists|i: int|
                0 <= i < js.len() && (#[trigger] js[i]).id == id && replaces(q, js[i]),
    decreases js.len(),
{
    if js.len() > 0 {
        let rest = js.drop_last();
        lemma_replaced(q, rest);
        let a = replaced(q, rest);
        let b = replaced(q, js);
        assert forall|id: JobId| #[trigger] b.contains(id) == exists|i: int|
            0 <= i < js.len() && (#[trigger] js[i]).id == id && replaces(q, js[i]) by {
            if b.contains(id) {
                let k = choose|k: int| 0 <= k < b.len() && b[k] == id;
                if k < a.len() {
                    assert(a[k] == id);
                    assert(a.contains(id));
                    let i = choose|i: int|
                        0 <= i < rest.len() && (#[trigger] rest[i]).id == id && replaces(
                            q,
                            rest[i],
                        );
                    assert(js[i] == rest[i]);
                } else {
                    assert(js[js.len() - 1].id == id);
                }
            }
            if exists|i: int| 0 <= i < js.len() && (#[trigger] js[i]).id == id && replaces(q, js[i]) {
                let i = choose|i: int|
                    0 <= i < js.len() && (#[trigger] js[i]).id == id && replaces(q, js[i]);
                if i < rest.len() {
                    assert(rest[i] == js[i]);
                    assert(a.contains(id));
                    let k = choose|k: int| 0 <= k < a.len() && a[k] == id;
                    assert(b[k] == id);
                } else {
                    assert(b[b.len() - 1] == id);
                }
            }
        }
    }
}

/// Whether starting a unit gives a job to the unit that an edge leads to: hard
/// requirements always get one, the rest where it is loaded.
pub open spec fn asks_for(f: ManagerFacts, edge: DepEdge, t: NameView) -> bool {
    ||| edge is Requires || edge is BindsTo || edge is Requisite
    ||| (edge is Wants || edge is Upholds || edge is Conflicts) && f.loaded.contains(t)
}

/// Among the pulls of a start there is one for every edge that asks for it.
pub(crate) proof fn lemma_start_pulls(
    f: ManagerFacts,
    ends: Seq<(DepEdge, NameView)>,
    edge: DepEdge,
    t: NameView,
)
    requires
        ends.contains((edge, t)),
        asks_for(f, edge, t),
    ensures
        exists|i: int|
            0 <= i < start_pulls(f, ends).len() && ((#[trigger] start_pulls(f, ends)[i]).hard
                || f.loaded.contains(t)) && start_pulls(f, ends)[i].unit == t,
    decreases ends.len(),
{
    let rest = ends.drop_last();
    let a = start_pulls(f, rest);
    let b = start_pulls(f, ends);
    let k = choose|k: int| 0 <= k < ends.len() && ends[k] == (edge, t);
    if k < rest.len() {
        assert(rest[k] == (edge, t));
        lemma_start_pulls(f, rest, edge, t);
        let i = choose|i: int|
            0 <= i < a.len() && ((#[trigger] a[i]).hard || f.loaded.contains(t)) && a[i].unit == t;
        assert(b[i] == a[i]);
    } else {
        assert(b[b.len() - 1].unit == t);
    }
}

/// A unit is not started without its hard requirements: where the transaction
/// that starts it can be built, every unit that it `Requires=`, is bound to or
/// has as `Requisite=` has a job in it. So has every loaded unit that it wants,
/// upholds or conflicts with.
pub proof fn dependencies_get_jobs(
    g: GraphView,
    f: ManagerFacts,
    next: u32,
    root: NameView,
    kind: JobType,
    mode: JobMode,
    edge: DepEdge,
    t: NameView,
)
    requires
        graph::is_closed(g),
        built(g, f, next, root, kind, mode) is Ok,
        kind is Start || kind is Restart || kind is ReloadOrStart,
        !(mode is IgnoreDependencies),
        asks_for(f, edge, t),
        g.edges.contains(EdgeView { from: root, kind: edge, to: t }),
    ensures
        has_job(built(g, f, next, root, kind, mode)->Ok_0, t),
{
    lemma_built(g, f, next, root, kind, mode);
    let e = EdgeView { from: root, kind: edge, to: t };
    let ends = graph::targets(g.edges, root);
    graph::forward_and_reverse_agree(g.edges, e);
    lemma_start_pulls(f, ends, edge, t);
    let k = choose|k: int| 0 <= k < g.edges.len() && g.edges[k] == e;
    assert(g.nodes.contains(g.edges[k].from));
    let starts = start_pulls(f, ends);
    let i = choose|i: int|
        0 <= i < starts.len() && ((#[trigger] starts[i]).hard || f.loaded.contains(t))
            && starts[i].unit == t;
    let ps = pulls(g, f, root, kind);
    assert(ps[i] == starts[i]);
    let q1 = put(none_queued(), root, collapsed(f, root, kind));
    lemma_put(f, none_queued(), root, collapsed(f, root, kind));
    lemma_add_pulls(g, f, mode, q1, ps);
    let (q, x) = add_job(g, f, mode, none_queued(), root, kind);
    assert(!none_queued().units.contains(root));
    assert((q, x) == add_pulls(g, f, mode, q1, ps));
    assert(q.units.contains(t));
    if mode is Isolate {
        lemma_add_pulls(g, f, JobMode::Replace, q, isolate_stops(g, f, root, g.nodes));
    }
}

} // verus!
