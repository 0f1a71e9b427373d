//! `.path` activation engine.
//!
//! Re-evaluates `PathExists*` / `DirectoryNotEmpty=` predicates on every
//! event. Initial-true semantics: if the predicate holds at load time, fire
//! once immediately.
//!
//! The functions here say what to look at and what to watch; the caller looks.

use crate::paths;
use crate::paths::{file_name, parent};
use crate::text;
use crate::text::{chars_of, ends_with, split_once, starts_with, string_of};
use crate::unit::duration;
use crate::unit::duration::TimeSpan;
use crate::unit::path_unit;
use crate::unit::path_unit::{PathUnit, PathView, PathWatch, WatchView};
use vstd::prelude::*;

verus! {

// ---------------------------------------------------------------------
// Predicates
// ---------------------------------------------------------------------

/// What to look for on disk.
#[derive(Debug, PartialEq, Eq)]
pub enum Probe {
    /// Whether this path exists.
    Exists(String),
    /// Whether there is a file that a pattern matches: this before its `*`,
    /// and this behind it. See [`glob_place`] and [`glob_any_exists`].
    Glob {
        /// What stands before the `*`.
        prefix: String,
        /// What stands behind it.
        suffix: String,
    },
    /// Whether this is a directory with an entry.
    NotEmpty(String),
}

/// A [`Probe`] by its characters.
pub enum ProbeView {
    Exists(Seq<char>),
    Glob { prefix: Seq<char>, suffix: Seq<char> },
    NotEmpty(Seq<char>),
}

impl View for Probe {
    type V = ProbeView;

    open spec fn view(&self) -> ProbeView {
        match *self {
            Probe::Exists(p) => ProbeView::Exists(p@),
            Probe::Glob { prefix, suffix } => ProbeView::Glob { prefix: prefix@, suffix: suffix@ },
            Probe::NotEmpty(p) => ProbeView::NotEmpty(p@),
        }
    }
}

/// What to look for, for a pattern: the path itself where it has no `*`.
pub open spec fn glob_probe(g: Seq<char>) -> ProbeView {
    match text::split_at_first(g, '*') {
        Some((prefix, suffix)) => ProbeView::Glob { prefix, suffix },
        None => ProbeView::Exists(g),
    }
}

/// What to look for, for a watch.
pub open spec fn probe_of(w: WatchView) -> ProbeView {
    match w {
        WatchView::Exists(p) | WatchView::Changed(p) | WatchView::Modified(p) => ProbeView::Exists(
            p,
        ),
        WatchView::ExistsGlob(g) => glob_probe(g),
        WatchView::DirectoryNotEmpty(d) => ProbeView::NotEmpty(d),
    }
}

/// Per-watch predicate (without file system events): what to look for.
pub fn predicate_for_watch(w: &PathWatch) -> (r: Probe)
    ensures
        r@ == probe_of(w@),
{
    match w {
        PathWatch::Exists(p) | PathWatch::Changed(p) | PathWatch::Modified(p) => Probe::Exists(
            p.clone(),
        ),
        PathWatch::ExistsGlob(g) => {
            let v = chars_of(g.as_str());
            match split_once(v.as_slice(), '*') {
                Some((a, b)) => Probe::Glob { prefix: string_of(a), suffix: string_of(b) },
                None => Probe::Exists(g.clone()),
            }
        },
        PathWatch::DirectoryNotEmpty(d) => Probe::NotEmpty(d.clone()),
    }
}

/// Whether any of the unit's predicates are currently satisfied, given the
/// answer for each of its watches.
pub fn predicate_holds(p: &PathUnit, answers: &Vec<bool>) -> (r: bool)
    requires
        answers@.len() == p@.watches.len(),
    ensures
        r == answers@.contains(true),
{
    let mut i: usize = 0;
    while i < answers.len()
        invariant
            i <= answers.len(),
            forall|j: int| 0 <= j < i ==> !#[trigger] answers@[j],
        decreases answers.len() - i,
    {
        if answers[i] {
            return true;
        }
        i = i + 1;
    }
    false
}

/// The directory in which to look for what a pattern matches, and how the
/// names in it begin, given what stands before its `*` and whether that is a
/// directory.
pub open spec fn glob_dir(prefix: Seq<char>, is_dir: bool) -> (Seq<char>, Seq<char>) {
    if is_dir {
        (prefix, ""@)
    } else {
        match paths::parent_of(prefix) {
            Some(d) => (
                d,
                match paths::file_name_of(prefix) {
                    Some(f) => f,
                    None => ""@,
                },
            ),
            None => ("."@, ""@),
        }
    }
}

/// The directory in which to look for what a pattern matches, and how the
/// names in it begin.
pub fn glob_place(prefix: &str, is_dir: bool) -> (r: (String, String))
    ensures
        (r.0@, r.1@) == glob_dir(prefix@, is_dir),
{
    if is_dir {
        return (prefix.to_owned(), "".to_owned());
    }
    match parent(prefix) {
        Some(d) => {
            let head = match file_name(prefix) {
                Some(f) => f,
                None => "".to_owned(),
            };
            (d, head)
        },
        None => (".".to_owned(), "".to_owned()),
    }
}

/// Whether a pattern matches one of the names.
pub open spec fn glob_matches(head: Seq<char>, suffix: Seq<char>, name: Seq<char>) -> bool {
    text::begins_with(name, head) && text::finishes_with(name, suffix)
}

/// Naive glob: whether one of the names in the directory begins and ends as
/// the pattern asks.
pub fn glob_any_exists(head: &str, suffix: &str, names: &Vec<String>) -> (r: bool)
    ensures
        r == (exists|i: int|
            0 <= i < names@.len() && #[trigger] glob_matches(head@, suffix@, names@[i]@)),
{
    let mut i: usize = 0;
    while i < names.len()
        invariant
            i <= names.len(),
            forall|j: int| 0 <= j < i ==> !#[trigger] glob_matches(head@, suffix@, names@[j]@),
        decreases names.len() - i,
    {
        let v = chars_of(names[i].as_str());
        if starts_with(v.as_slice(), head) && ends_with(v.as_slice(), suffix) {
            proof {
                assert(glob_matches(head@, suffix@, names@[i as int]@));
            }
            return true;
        }
        i = i + 1;
    }
    false
}

// ---------------------------------------------------------------------
// Directories
// ---------------------------------------------------------------------

/// The directory that a watch needs: that of its path; none for a pattern.
pub open spec fn needed_dir(w: WatchView) -> Option<Seq<char>> {
    match w {
        WatchView::Exists(p)
        | WatchView::Changed(p)
        | WatchView::Modified(p)
        | WatchView::DirectoryNotEmpty(p) => paths::parent_of(p),
        WatchView::ExistsGlob(_) => None,
    }
}

/// The directories that some watches need.
pub open spec fn needed_dirs(ws: Seq<WatchView>) -> Seq<Seq<char>>
    decreases ws.len(),
{
    if ws.len() == 0 {
        seq![]
    } else {
        match needed_dir(ws.last()) {
            Some(d) => needed_dirs(ws.drop_last()).push(d),
            None => needed_dirs(ws.drop_last()),
        }
    }
}

/// `MakeDirectory=` + `DirectoryMode=`: the directories to make, and their
/// mode.
pub fn ensure_directories(p: &PathUnit) -> (r: (Vec<String>, u32))
    ensures
        text::texts(r.0@) == if p@.make_directory {
            needed_dirs(p@.watches)
        } else {
            seq![]
        },
        r.1 == match p@.directory_mode {
            Some(m) => m,
            None => 0o755,
        },
{
    let mode: u32 = match p.directory_mode {
        Some(m) => m,
        None => 0o755,
    };
    let mut out: Vec<String> = Vec::new();
    proof {
        assert(text::texts(out@) =~= seq![]);
    }
    if !p.make_directory {
        return (out, mode);
    }
    let ghost all = p@.watches;
    let mut i: usize = 0;
    while i < p.watches.len()
        invariant
            i <= p.watches.len(),
            all == p@.watches,
            all == path_unit::watches_view(p.watches@),
            text::texts(out@) == needed_dirs(all.take(i as int)),
        decreases p.watches.len() - i,
    {
        proof {
            assert(all.take(i + 1).drop_last() =~= all.take(i as int));
            assert(all.take(i + 1).last() == p.watches@[i as int]@);
        }
        let dir = match &p.watches[i] {
            PathWatch::Exists(w)
            | PathWatch::Changed(w)
            | PathWatch::Modified(w)
            | PathWatch::DirectoryNotEmpty(w) => parent(w.as_str()),
            PathWatch::ExistsGlob(_) => None,
        };
        if let Some(d) = dir {
            let ghost before = out@;
            out.push(d);
            proof {
                assert(text::texts(out@) =~= text::texts(before).push(d@));
            }
        }
        i = i + 1;
    }
    proof {
        assert(all.take(all.len() as int) =~= all);
    }
    (out, mode)
}

// ---------------------------------------------------------------------
// Watching
// ---------------------------------------------------------------------

/// Which changes of a file or directory count.
#[derive(Debug, Clone, Copy, PartialEq, Eq, Structural)]
pub enum Notes {
    /// Its entries change, or it goes away or moves: for a directory.
    Entries,
    /// It is written to, or goes away.
    Written,
    /// It is written to, grows, changes its attributes, or goes away.
    Touched,
}

/// What to watch.
#[derive(Debug, PartialEq, Eq)]
pub struct Registration {
    /// A file or directory.
    pub path: String,
    /// Which changes of it count.
    pub notes: Notes,
}

/// A [`Registration`] by its characters.
pub struct RegistrationView {
    pub path: Seq<char>,
    pub notes: Notes,
}

impl View for Registration {
    type V = RegistrationView;

    open spec fn view(&self) -> RegistrationView {
        RegistrationView { path: self.path@, notes: self.notes }
    }
}

/// The views of a list of registrations.
pub open spec fn registrations_view(v: Seq<Registration>) -> Seq<RegistrationView> {
    v.map_values(|r: Registration| r@)
}

/// What the path of a watch is watched for.
pub open spec fn notes_of(w: WatchView) -> Notes {
    match w {
        WatchView::Modified(_) => Notes::Touched,
        _ => Notes::Written,
    }
}

/// The directory of a watch.
pub open spec fn watched_dir(w: WatchView) -> Option<Seq<char>> {
    paths::parent_of(path_unit::watched_path(w))
}

/// A registration where a path exists.
pub open spec fn if_there(path: Seq<char>, notes: Notes, there: bool) -> Seq<RegistrationView> {
    if there {
        seq![RegistrationView { path, notes }]
    } else {
        seq![]
    }
}

/// The registrations of a watch, given whether its path and its directory
/// exist: a pattern is watched for by its directory, or the current one where
/// it has none; a path by itself and its directory, as far as they exist.
pub open spec fn registrations(w: WatchView, exists: bool, parent_exists: bool) -> Seq<
    RegistrationView,
> {
    let p = path_unit::watched_path(w);
    let dir = match watched_dir(w) {
        Some(d) => if_there(d, Notes::Entries, parent_exists),
        None => if w is ExistsGlob {
            if_there("."@, Notes::Entries, true)
        } else {
            seq![]
        },
    };
    match w {
        WatchView::ExistsGlob(_) => dir,
        WatchView::Exists(_) | WatchView::DirectoryNotEmpty(_) => dir + if_there(
            p,
            notes_of(w),
            exists,
        ),
        WatchView::Changed(_) | WatchView::Modified(_) => if_there(p, notes_of(w), exists) + dir,
    }
}

/// The registrations of a watch.
pub fn register_watch(w: &PathWatch, exists: bool, parent_exists: bool) -> (r: Vec<Registration>)
    ensures
        registrations_view(r@) == registrations(w@, exists, parent_exists),
{
    let mut out: Vec<Registration> = Vec::new();
    match w {
        PathWatch::Exists(p) | PathWatch::DirectoryNotEmpty(p) => {
            if let Some(d) = parent(p.as_str()) {
                if parent_exists {
                    out.push(Registration { path: d, notes: Notes::Entries });
                }
            }
            if exists {
                out.push(Registration { path: p.clone(), notes: Notes::Written });
            }
        },
        PathWatch::Changed(p) => {
            if exists {
                out.push(Registration { path: p.clone(), notes: Notes::Written });
            }
            if let Some(d) = parent(p.as_str()) {
                if parent_exists {
                    out.push(Registration { path: d, notes: Notes::Entries });
                }
            }
        },
        PathWatch::Modified(p) => {
            if exists {
                out.push(Registration { path: p.clone(), notes: Notes::Touched });
            }
            if let Some(d) = parent(p.as_str()) {
                if parent_exists {
                    out.push(Registration { path: d, notes: Notes::Entries });
                }
            }
        },
        PathWatch::ExistsGlob(g) => match parent(g.as_str()) {
            Some(d) => {
                if parent_exists {
                    out.push(Registration { path: d, notes: Notes::Entries });
                }
            },
            None => {
                out.push(Registration { path: ".".to_owned(), notes: Notes::Entries });
            },
        },
    }
    proof {
        assert(registrations_view(out@) =~= registrations(w@, exists, parent_exists));
    }
    out
}

/// Whether a watch is kept track of: a pattern is not where its directory is
/// missing.
pub open spec fn is_watched(w: WatchView, parent_exists: bool) -> bool {
    !(w is ExistsGlob) || watched_dir(w) is None || parent_exists
}

/// Per-`.path`-unit watcher state.
#[derive(Debug, PartialEq, Eq)]
pub struct PathWatcher {
    /// What to watch.
    pub registrations: Vec<Registration>,
    /// The positions of the watches that are kept track of.
    pub watches: Vec<usize>,
}

/// The registrations of some watches, given whether the path and the directory
/// of each exist.
pub open spec fn all_registrations(ws: Seq<WatchView>, facts: Seq<(bool, bool)>) -> Seq<
    RegistrationView,
>
    decreases ws.len(),
{
    if ws.len() == 0 {
        seq![]
    } else {
        all_registrations(ws.drop_last(), facts.drop_last()) + registrations(
            ws.last(),
            facts.last().0,
            facts.last().1,
        )
    }
}

/// The positions of the watches that are kept track of.
pub open spec fn tracked_watches(ws: Seq<WatchView>, facts: Seq<(bool, bool)>) -> Seq<usize>
    decreases ws.len(),
{
    if ws.len() == 0 {
        seq![]
    } else if is_watched(ws.last(), facts.last().1) {
        tracked_watches(ws.drop_last(), facts.drop_last()).push((ws.len() - 1) as usize)
    } else {
        tracked_watches(ws.drop_last(), facts.drop_last())
    }
}

impl PathWatcher {
    /// All of `unit`'s watches, given for each whether its path and its
    /// directory exist.
    pub fn new(unit: &PathUnit, facts: &Vec<(bool, bool)>) -> (r: Self)
        requires
            facts@.len() == unit@.watches.len(),
        ensures
            registrations_view(r.registrations@) == all_registrations(unit@.watches, facts@),
            r.watches@ == tracked_watches(unit@.watches, facts@),
    {
        let ghost all = unit@.watches;
        let mut found: Vec<Registration> = Vec::new();
        let mut watches: Vec<usize> = Vec::new();
        let mut i: usize = 0;
        proof {
            assert(registrations_view(found@) =~= seq![]);
        }
        while i < unit.watches.len()
            invariant
                i <= unit.watches.len(),
                facts@.len() == unit.watches.len(),
                all == unit@.watches,
                all == path_unit::watches_view(unit.watches@),
                registrations_view(found@) == all_registrations(
                    all.take(i as int),
                    facts@.take(i as int),
                ),
                watches@ == tracked_watches(all.take(i as int), facts@.take(i as int)),
            decreases unit.watches.len() - i,
        {
            proof {
                assert(all.take(i + 1).drop_last() =~= all.take(i as int));
                assert(all.take(i + 1).last() == unit.watches@[i as int]@);
                assert(facts@.take(i + 1).drop_last() =~= facts@.take(i as int));
                assert(facts@.take(i + 1).last() == facts@[i as int]);
            }
            let w = &unit.watches[i];
            let (exists, parent_exists) = facts[i];
            let mut more = register_watch(w, exists, parent_exists);
            let ghost before = found@;
            let ghost added = more@;
            found.append(&mut more);
            proof {
                assert(registrations_view(found@) =~= registrations_view(before)
                    + registrations_view(added));
            }
            let kept = match w {
                PathWatch::ExistsGlob(g) => parent_exists || parent(g.as_str()).is_none(),
                _ => true,
            };
            if kept {
                watches.push(i);
            }
            i = i + 1;
        }
        proof {
            assert(all.take(all.len() as int) =~= all);
            assert(facts@.take(facts@.len() as int) =~= facts@);
        }
        PathWatcher { registrations: found, watches }
    }

    /// Which watch an event is taken to be about, given the answers for those
    /// that are kept track of: the first whose predicate holds, else the first,
    /// so that the caller looks again. `None` on timeout.
    pub fn poll(&self, event: bool, answers: &Vec<bool>) -> (r: Option<usize>)
        requires
            answers@.len() == self.watches@.len(),
        ensures
            match r {
                Some(k) => event && k == first_held(answers@),
                None => !event,
            },
    {
        if event {
            Some(matching_watch(answers))
        } else {
            None
        }
    }
}

/// Whether a look at the paths of a unit starts what the unit names: a predicate
/// holds, and this is the first look or something changed since the last one.
pub fn fires(first: bool, event: Option<usize>, holds: bool) -> (r: bool)
    ensures
        r == (holds && (first || event is Some)),
{
    holds && (first || event.is_some())
}

/// The position of the first answer that holds; the first of all where none
/// does.
pub open spec fn first_held(answers: Seq<bool>) -> int
    decreases answers.len(),
{
    if answers.len() == 0 {
        0
    } else if answers.drop_last().contains(true) {
        first_held(answers.drop_last())
    } else if answers.last() {
        answers.len() - 1
    } else {
        0
    }
}

/// Which watch an event is taken to be about: the first whose predicate holds,
/// else the first, so that the caller looks again.
fn matching_watch(answers: &Vec<bool>) -> (r: usize)
    ensures
        r == first_held(answers@),
{
    let mut i: usize = 0;
    while i < answers.len()
        invariant
            i <= answers.len(),
            first_held(answers@.take(i as int)) == 0,
            !answers@.take(i as int).contains(true),
        decreases answers.len() - i,
    {
        let ghost now = answers@.take(i + 1);
        proof {
            assert(now.drop_last() =~= answers@.take(i as int));
        }
        if answers[i] {
            proof {
                lemma_first_held(answers@, i as int);
            }
            return i;
        }
        proof {
            if now.contains(true) {
                let k = now.index_of(true);
                assert(now[k]);
                assert(answers@.take(i as int)[k]);
            }
        }
        i = i + 1;
    }
    proof {
        assert(answers@.take(answers@.len() as int) =~= answers@);
    }
    0
}

proof fn lemma_first_held(answers: Seq<bool>, i: int)
    requires
        0 <= i < answers.len(),
        answers[i],
        !answers.take(i).contains(true),
    ensures
        first_held(answers) == i,
    decreases answers.len(),
{
    let rest = answers.drop_last();
    if i < answers.len() - 1 {
        assert(rest[i]);
        assert(rest.take(i) =~= answers.take(i));
        lemma_first_held(rest, i);
    } else {
        assert(rest =~= answers.take(i));
    }
}

// ---------------------------------------------------------------------
// Rate limit
// ---------------------------------------------------------------------

/// Rate limiter: `TriggerLimitIntervalSec=` / `TriggerLimitBurst=`. Times are
/// those of a clock that never goes back.
#[derive(Debug, Clone, Copy, PartialEq, Eq)]
pub struct TriggerLimiter {
    /// Bursts allowed per interval. Default 200.
    pub burst: u32,
    /// Window length.
    pub interval: Option<TimeSpan>,
    /// Window start.
    pub window_started: Option<TimeSpan>,
    /// Trigger count in current window.
    pub count: u32,
}

impl Default for TriggerLimiter {
    fn default() -> (r: Self)
        ensures
            r == (TriggerLimiter { burst: 0, interval: None, window_started: None, count: 0 }),
    {
        TriggerLimiter { burst: 0, interval: None, window_started: None, count: 0 }
    }
}

/// The limiter of a unit.
pub open spec fn limiter_of(p: PathView) -> TriggerLimiter {
    TriggerLimiter {
        burst: match p.trigger_limit_burst {
            Some(b) => b,
            None => 200,
        },
        interval: match (p.trigger_limit_interval_sec, p.trigger_limit_burst) {
            (Some(d), _) => Some(duration::span_or_max(d)),
            (None, Some(_)) => Some(TimeSpan { secs: 2, nanos: 0 }),
            (None, None) => None,
        },
        window_started: None,
        count: 0,
    }
}

/// Whether a time lies in the limiter's current window.
pub open spec fn in_window(l: TriggerLimiter, now: TimeSpan) -> bool {
    match (l.interval, l.window_started) {
        (Some(d), Some(start)) => now.total() - start.total() <= d.total(),
        _ => false,
    }
}

/// Whether a trigger is allowed.
pub open spec fn allows(l: TriggerLimiter, now: TimeSpan) -> bool {
    l.interval is None || !in_window(l, now) || l.count < l.burst
}

/// The limiter after a trigger was asked for.
pub open spec fn asked(l: TriggerLimiter, now: TimeSpan) -> TriggerLimiter {
    if l.interval is None {
        l
    } else if !in_window(l, now) {
        TriggerLimiter { window_started: Some(now), count: 1, ..l }
    } else if l.count < l.burst {
        TriggerLimiter { count: (l.count + 1) as u32, ..l }
    } else {
        l
    }
}

impl TriggerLimiter {
    /// Build from a unit. Without an interval, nothing is limited.
    pub fn from_unit(p: &PathUnit) -> (r: Self)
        ensures
            r == limiter_of(p@),
    {
        let burst: u32 = match p.trigger_limit_burst {
            Some(b) => b,
            None => 200,
        };
        let interval: Option<TimeSpan> = match p.trigger_limit_interval_sec {
            Some(d) => Some(d.as_std()),
            None => if p.trigger_limit_burst.is_some() {
                Some(TimeSpan::from_secs(2))
            } else {
                None
            },
        };
        TriggerLimiter { burst, interval, window_started: None, count: 0 }
    }

    /// Returns true if a trigger is allowed now; updates the counter.
    pub fn allow(&mut self, now: TimeSpan) -> (r: bool)
        ensures
            r == allows(*old(self), now),
            *final(self) == asked(*old(self), now),
    {
        let interval = match self.interval {
            Some(d) => d,
            None => {
                return true;
            },
        };
        if let Some(start) = self.window_started {
            let a = now.as_nanos();
            let b = start.as_nanos();
            if a < b || a - b <= interval.as_nanos() {
                if self.count >= self.burst {
                    return false;
                }
                self.count = self.count + 1;
                return true;
            }
        }
        self.window_started = Some(now);
        self.count = 1;
        true
    }
}

/// The limiter after triggers were asked for at some times.
pub open spec fn asked_all(l: TriggerLimiter, times: Seq<TimeSpan>) -> TriggerLimiter
    decreases times.len(),
{
    if times.len() == 0 {
        l
    } else {
        asked(asked_all(l, times.drop_last()), times.last())
    }
}

/// How many of these triggers are allowed.
pub open spec fn allowed(l: TriggerLimiter, times: Seq<TimeSpan>) -> nat
    decreases times.len(),
{
    if times.len() == 0 {
        0
    } else {
        allowed(l, times.drop_last()) + if allows(
            asked_all(l, times.drop_last()),
            times.last(),
        ) {
            1nat
        } else {
            0nat
        }
    }
}

/// Of the triggers within one window just the burst is allowed (the one that
/// opens the window always is), and the rest is held back; those that were
/// allowed are counted.
pub proof fn a_window_allows_its_burst(l: TriggerLimiter, times: Seq<TimeSpan>)
    requires
        l.interval is Some,
        l.window_started is None,
        times.len() > 0,
        forall|i: int|
            0 <= i < times.len() ==> (#[trigger] times[i]).total() - times[0].total()
                <= l.interval->Some_0.total(),
    ensures
        allowed(l, times) == if l.burst <= 1 {
            1
        } else if times.len() <= l.burst {
            times.len()
        } else {
            l.burst as nat
        },
        asked_all(l, times) == (TriggerLimiter {
            window_started: Some(times[0]),
            count: allowed(l, times) as u32,
            ..l
        }),
    decreases times.len(),
{
    let rest = times.drop_last();
    if rest.len() > 0 {
        assert(rest[0] == times[0]);
        assert forall|i: int| 0 <= i < rest.len() implies (#[trigger] rest[i]).total()
            - rest[0].total() <= l.interval->Some_0.total() by {
            assert(rest[i] == times[i]);
        }
        a_window_allows_its_burst(l, rest);
        assert(times[times.len() - 1] == times.last());
    } else {
        reveal_with_fuel(asked_all, 2);
        reveal_with_fuel(allowed, 2);
    }
}

/// Without an interval every trigger is allowed.
pub proof fn no_interval_no_limit(l: TriggerLimiter, now: TimeSpan)
    requires
        l.interval is None,
    ensures
        allows(l, now),
        asked(l, now) == l,
{
}

} // verus!
