//! `.timer` activation engine.
//!
//! [`next_overall`] computes when a timer fires next. Persistent state for
//! `Persistent=yes` lives at `$XDG_STATE_HOME/systeml/timers/<name>.timer`. The
//! scheduler sleeps until the earliest instant over all active timers, starts
//! the linked unit, and watches for it to deactivate.

use crate::civil;
use crate::civil::{DateTime, DateTimeView};
use crate::number;
use crate::number::{parse_i64, signed_string};
use crate::paths;
use crate::paths::join;
use crate::runtime::manager::{EventView, UnitEvent};
use crate::runtime::schedule;
use crate::runtime::schedule::next_fire;
use crate::runtime::state::ActiveState;
use crate::text;
use crate::text::{chars_of, trim};
use crate::unit::calendar;
use crate::unit::calendar::CalendarView;
use crate::unit::duration::{SdDuration, TimeSpan};
use crate::unit::name;
use crate::unit::name::{NameView, UnitKind, UnitName};
use crate::unit::name_map::{NameMap, NameTable};
use crate::unit::name_set;
use crate::unit::timer::{TimerUnit, TimerView};
use vstd::prelude::*;

verus! {

// ---------------------------------------------------------------------
// Stamps
// ---------------------------------------------------------------------

/// Where the last-fire timestamp of a timer is kept.
pub open spec fn stamp_path(state_dir: Seq<char>, n: NameView) -> Seq<char> {
    paths::joined(paths::joined(state_dir, "timers"@), name::name_text(n))
}

/// Where we persist last-fire timestamps, below the daemon's state directory.
pub fn state_file(state_dir: &str, n: &UnitName) -> (r: String)
    ensures
        r@ == stamp_path(state_dir@, n@),
{
    join(join(state_dir, "timers").as_str(), n.filename().as_str())
}

/// What a last-fire timestamp says: seconds from 1970-01-01 00:00:00 UTC.
pub open spec fn stamp_of(s: Seq<char>) -> Option<DateTimeView> {
    match number::int_of(text::trimmed(s), 0x7fff_ffff_ffff_ffff) {
        Ok(n) => {
            let t = DateTimeView { secs: n, nanos: 0, offset: 0 };
            if civil::is_instant(t) {
                Some(t)
            } else {
                None
            }
        },
        Err(_) => None,
    }
}

/// Reads a last-fire timestamp.
pub fn parse_last_fire(s: &str) -> (r: Option<DateTime>)
    ensures
        civil::opt_instant(r) == stamp_of(s@),
{
    let v = chars_of(s);
    match parse_i64(trim(v.as_slice())) {
        Ok(n) => DateTime::from_unix_timestamp(n),
        Err(_) => None,
    }
}

/// Writes a last-fire timestamp.
pub fn last_fire_text(t: &DateTime) -> (r: String)
    ensures
        r@ == number::signed_decimal(t@.secs),
{
    signed_string(t.unix_timestamp())
}

/// A timestamp that was written reads back as the same second.
pub proof fn stamp_reads_back(t: DateTimeView)
    requires
        civil::is_instant(t),
        t.offset == 0,
    ensures
        stamp_of(number::signed_decimal(t.secs)) == Some(
            DateTimeView { secs: t.secs, nanos: 0, offset: 0 },
        ),
{
    number::signed_decimal_is_trimmed(t.secs);
    number::signed_decimal_reads_back(t.secs, 0x7fff_ffff_ffff_ffff);
}

// ---------------------------------------------------------------------
// The next instant
// ---------------------------------------------------------------------

/// The earlier of two instants, where there are any; of two at the same time,
/// the second.
pub open spec fn earliest(a: Option<DateTimeView>, b: Option<DateTimeView>) -> Option<DateTimeView> {
    match (a, b) {
        (None, _) => b,
        (_, None) => a,
        (Some(x), Some(y)) => if civil::earlier(x, y) {
            a
        } else {
            b
        },
    }
}

fn earlier_of(a: Option<DateTime>, b: Option<DateTime>) -> (r: Option<DateTime>)
    ensures
        civil::opt_instant(r) == earliest(civil::opt_instant(a), civil::opt_instant(b)),
{
    match (a, b) {
        (None, _) => b,
        (Some(x), None) => Some(x),
        (Some(x), Some(y)) => if x.is_earlier(&y) {
            Some(x)
        } else {
            Some(y)
        },
    }
}

/// When a monotonic trigger elapses: a span after its starting point, where
/// that is later than `now`. A trigger without a starting point, with an
/// infinite span or beyond the range of the calendar never elapses.
pub open spec fn elapses(now: DateTimeView, from: Option<DateTimeView>, d: Option<SdDuration>) -> Option<
    DateTimeView,
> {
    match (from, d) {
        (Some(t), Some(SdDuration::Finite(span))) => if civil::is_instant(civil::plus(t, span))
            && civil::earlier(now, civil::plus(t, span)) {
            Some(civil::plus(t, span))
        } else {
            None
        },
        _ => None,
    }
}

fn elapse(now: &DateTime, from: Option<DateTime>, d: Option<SdDuration>) -> (r: Option<DateTime>)
    ensures
        civil::opt_instant(r) == elapses(now@, civil::opt_instant(from), d),
{
    match (from, d) {
        (Some(t), Some(SdDuration::Finite(span))) => match t.checked_add(span) {
            Some(x) => if now.is_earlier(&x) {
                Some(x)
            } else {
                None
            },
            None => None,
        },
        _ => None,
    }
}

/// The earliest instant at which one of a list of calendar events fires.
pub open spec fn next_calendar(specs: Seq<CalendarView>, base: DateTimeView) -> Option<DateTimeView>
    decreases specs.len(),
{
    if specs.len() == 0 {
        None
    } else {
        earliest(
            next_calendar(specs.drop_last(), base),
            schedule::next_after(specs.last(), base),
        )
    }
}

/// What a timer is computed from.
#[derive(Clone, Copy)]
pub struct TimerClock {
    /// The present.
    pub now: DateTime,
    /// When the manager started; stands for the boot time as well.
    pub manager_start: DateTime,
    /// When the timer was activated.
    pub activated_at: Option<DateTime>,
    /// When the linked unit was last activated.
    pub last_unit_active: Option<DateTime>,
    /// When the linked unit was last deactivated.
    pub last_unit_inactive: Option<DateTime>,
    /// When the timer fired last.
    pub last_fire: Option<DateTime>,
}

/// When a timer fires next: the earliest over its calendar events and its
/// monotonic triggers.
pub open spec fn next_of(c: TimerClock, t: TimerView) -> Option<DateTimeView> {
    let now = c.now@;
    let start = Some(c.manager_start@);
    let a = next_calendar(
        t.on_calendar,
        schedule::baseline(now, civil::opt_instant(c.last_fire)),
    );
    let b = earliest(a, elapses(now, civil::opt_instant(c.activated_at), t.on_active_sec));
    let d = earliest(b, elapses(now, start, t.on_startup_sec));
    let e = earliest(d, elapses(now, start, t.on_boot_sec));
    let f = earliest(
        e,
        elapses(now, civil::opt_instant(c.last_unit_active), t.on_unit_active_sec),
    );
    earliest(f, elapses(now, civil::opt_instant(c.last_unit_inactive), t.on_unit_inactive_sec))
}

/// Whether a clock can show the end of every calendar search of a timer.
pub open spec fn clock_in_reach(c: TimerClock) -> bool {
    schedule::in_reach(schedule::baseline(c.now@, civil::opt_instant(c.last_fire)))
}

/// Whether a clock can show the end of every calendar search of a timer.
pub fn is_in_reach(c: &TimerClock) -> (r: bool)
    ensures
        r == clock_in_reach(*c),
{
    let base = match c.last_fire {
        Some(l) => if c.now.is_earlier(&l) {
            l
        } else {
            c.now
        },
        None => c.now,
    };
    base.unix_timestamp() + base.offset() as i64 + schedule::HORIZON <= civil::LAST_SECOND
}

/// Compute the next fire time across every `OnCalendar=` plus monotonic
/// triggers (`OnActiveSec`, `OnUnitActiveSec`, …). Returns the *earliest*
/// instant > `now`.
pub fn next_overall(c: &TimerClock, timer: &TimerUnit) -> (r: Option<DateTime>)
    requires
        timer@.on_calendar.len() > 0 ==> clock_in_reach(*c),
    ensures
        civil::opt_instant(r) == next_of(*c, timer@),
{
    let now = c.now;
    let mut best: Option<DateTime> = None;
    let ghost specs = calendar::calendars_view(timer.on_calendar@);
    let ghost base = schedule::baseline(now@, civil::opt_instant(c.last_fire));
    let mut i: usize = 0;
    proof {
        assert(specs.take(0) =~= seq![]);
    }
    while i < timer.on_calendar.len()
        invariant
            i <= timer.on_calendar.len(),
            specs == calendar::calendars_view(timer.on_calendar@),
            now == c.now,
            base == schedule::baseline(now@, civil::opt_instant(c.last_fire)),
            specs.len() > 0 ==> schedule::in_reach(base),
            civil::opt_instant(best) == next_calendar(specs.take(i as int), base),
        decreases timer.on_calendar.len() - i,
    {
        proof {
            assert(specs.take(i + 1).drop_last() =~= specs.take(i as int));
            assert(specs.take(i + 1).last() == timer.on_calendar@[i as int]@);
        }
        best = earlier_of(best, next_fire(now, &timer.on_calendar[i], c.last_fire));
        i = i + 1;
    }
    proof {
        assert(specs.take(specs.len() as int) =~= specs);
    }
    best = earlier_of(best, elapse(&now, c.activated_at, timer.on_active_sec));
    best = earlier_of(best, elapse(&now, Some(c.manager_start), timer.on_startup_sec));
    // Boot time is not tracked separately; the manager's start stands for it.
    best = earlier_of(best, elapse(&now, Some(c.manager_start), timer.on_boot_sec));
    best = earlier_of(best, elapse(&now, c.last_unit_active, timer.on_unit_active_sec));
    earlier_of(best, elapse(&now, c.last_unit_inactive, timer.on_unit_inactive_sec))
}

/// Whether an instant, where there is one, is not missed: there is one that
/// comes no later.
pub open spec fn reached_by(x: Option<DateTimeView>, next: Option<DateTimeView>) -> bool {
    x is Some ==> next is Some && !civil::earlier(x->Some_0, next->Some_0)
}

/// The next instant of a timer lies after the present, and no calendar event or
/// trigger of the timer comes earlier.
pub proof fn next_overall_is_the_earliest(c: TimerClock, t: TimerView)
    requires
        civil::is_instant(c.now@),
        c.last_fire is Some ==> civil::is_instant(c.last_fire->Some_0@),
    ensures
        ({
            let now = c.now@;
            let start = Some(c.manager_start@);
            let base = schedule::baseline(now, civil::opt_instant(c.last_fire));
            let next = next_of(c, t);
            &&& next is Some ==> civil::earlier(now, next->Some_0)
            &&& forall|i: int|
                0 <= i < t.on_calendar.len() ==> reached_by(
                    schedule::next_after(#[trigger] t.on_calendar[i], base),
                    next,
                )
            &&& reached_by(
                elapses(now, civil::opt_instant(c.activated_at), t.on_active_sec),
                next,
            )
            &&& reached_by(elapses(now, start, t.on_startup_sec), next)
            &&& reached_by(elapses(now, start, t.on_boot_sec), next)
            &&& reached_by(
                elapses(now, civil::opt_instant(c.last_unit_active), t.on_unit_active_sec),
                next,
            )
            &&& reached_by(
                elapses(now, civil::opt_instant(c.last_unit_inactive), t.on_unit_inactive_sec),
                next,
            )
        }),
{
    let base = schedule::baseline(c.now@, civil::opt_instant(c.last_fire));
    lemma_next_calendar(t.on_calendar, base);
}

proof fn lemma_next_calendar(specs: Seq<CalendarView>, base: DateTimeView)
    requires
        civil::is_instant(base),
    ensures
        next_calendar(specs, base) is Some ==> civil::earlier(
            base,
            next_calendar(specs, base)->Some_0,
        ),
        forall|i: int|
            0 <= i < specs.len() ==> reached_by(
                schedule::next_after(#[trigger] specs[i], base),
                next_calendar(specs, base),
            ),
    decreases specs.len(),
{
    if specs.len() > 0 {
        schedule::next_fire_is_the_earliest(specs.last(), base);
        let rest = specs.drop_last();
        lemma_next_calendar(rest, base);
        assert forall|i: int| 0 <= i < specs.len() implies reached_by(
            schedule::next_after(#[trigger] specs[i], base),
            next_calendar(specs, base),
        ) by {
            if i < rest.len() {
                assert(rest[i] == specs[i]);
            }
        }
    }
}

/// How long to sleep until `deadline`. Floors at zero: if the deadline is
/// already past, fire immediately.
pub fn deadline_to_sleep(deadline: &DateTime, now: &DateTime) -> (r: TimeSpan)
    ensures
        r.wf(),
        r.total() == if civil::earlier(deadline@, now@) {
            0
        } else {
            (deadline@.secs - now@.secs) * 1_000_000_000 + deadline@.nanos - now@.nanos
        },
{
    deadline.since(now)
}

/// How long it is from `now` to the second of an absolute moment. `Some` only
/// if that is in the future.
pub fn to_instant(t: &DateTime, now: &DateTime) -> (r: Option<TimeSpan>)
    ensures
        match r {
            Some(d) => d.wf() && d.total() > 0 && d.total() == (t@.secs - now@.secs)
                * 1_000_000_000 - now@.nanos,
            None => t@.secs * 1_000_000_000 <= now@.secs * 1_000_000_000 + now@.nanos,
        },
{
    let target = DateTime::new(t.unix_timestamp(), 0, t.offset())?;
    if now.unix_timestamp() < t.unix_timestamp() {
        Some(target.since(now))
    } else {
        None
    }
}

// ---------------------------------------------------------------------
// The scheduler
// ---------------------------------------------------------------------

/// Control messages the scheduler accepts.
#[derive(Debug, Clone, Copy, PartialEq, Eq, Structural)]
pub enum TimerControl {
    /// Recompute the schedule. Sent after `daemon-reload` or any
    /// `start_unit`/`stop_unit` of a `.timer`.
    Refresh,
    /// Stop the scheduler task.
    Shutdown,
}

/// A timer that the scheduler looks at.
pub struct Scheduled {
    /// The timer unit.
    pub name: UnitName,
    /// Its state.
    pub active: ActiveState,
    /// When it fires next.
    pub next: Option<DateTime>,
}

/// A [`Scheduled`] by its characters.
pub struct ScheduledView {
    pub name: NameView,
    pub active: ActiveState,
    pub next: Option<DateTimeView>,
}

impl View for Scheduled {
    type V = ScheduledView;

    open spec fn view(&self) -> ScheduledView {
        ScheduledView {
            name: self.name@,
            active: self.active,
            next: civil::opt_instant(self.next),
        }
    }
}

/// The views of a list of timers.
pub open spec fn scheduled_view(v: Seq<Scheduled>) -> Seq<ScheduledView> {
    v.map_values(|s: Scheduled| s@)
}

/// The active timer that fires earliest, and when; the first of those that fire
/// at the same time.
pub open spec fn next_deadline(ts: Seq<ScheduledView>) -> Option<(DateTimeView, NameView)>
    decreases ts.len(),
{
    if ts.len() == 0 {
        None
    } else {
        let best = next_deadline(ts.drop_last());
        let t = ts.last();
        if t.active is Active && t.next is Some && (best is None || civil::earlier(
            t.next->Some_0,
            best->Some_0.0,
        )) {
            Some((t.next->Some_0, t.name))
        } else {
            best
        }
    }
}

/// The view of a deadline.
pub open spec fn deadline_view(o: Option<(DateTime, UnitName)>) -> Option<(DateTimeView, NameView)> {
    match o {
        Some((t, n)) => Some((t@, n@)),
        None => None,
    }
}

/// Walk every timer in [`ActiveState::Active`] and find the earliest next-fire
/// across all of them.
pub fn compute_next(timers: &Vec<Scheduled>) -> (r: Option<(DateTime, UnitName)>)
    ensures
        deadline_view(r) == next_deadline(scheduled_view(timers@)),
{
    let ghost all = scheduled_view(timers@);
    let mut best: Option<(DateTime, UnitName)> = None;
    let mut i: usize = 0;
    while i < timers.len()
        invariant
            i <= timers.len(),
            all == scheduled_view(timers@),
            deadline_view(best) == next_deadline(all.take(i as int)),
        decreases timers.len() - i,
    {
        let t = &timers[i];
        proof {
            assert(all.take(i + 1).drop_last() =~= all.take(i as int));
            assert(all.take(i + 1).last() == t@);
        }
        if t.active == ActiveState::Active {
            if let Some(next) = t.next {
                let better = match &best {
                    None => true,
                    Some(b) => next.is_earlier(&b.0),
                };
                if better {
                    best = Some((next, t.name.clone()));
                }
            }
        }
        i = i + 1;
    }
    proof {
        assert(all.take(all.len() as int) =~= all);
    }
    best
}

/// The unit that a timer, path or socket starts: the one it names, else the
/// service of the same name.
pub open spec fn linked_unit(n: NameView, unit: Option<NameView>) -> NameView {
    match unit {
        Some(u) => u,
        None => NameView { kind: UnitKind::Service, ..n },
    }
}

/// The unit that a timer, path or socket starts, given the one it names.
pub fn linked_to(n: &UnitName, unit: &Option<UnitName>) -> (r: UnitName)
    ensures
        r@ == linked_unit(n@, name::opt_name(*unit)),
{
    match unit {
        Some(u) => u.clone(),
        None => {
            let mut n = n.clone();
            n.kind = UnitKind::Service;
            n
        },
    }
}

/// The unit that a timer starts.
pub fn fire_target(timer: &UnitName, t: &TimerUnit) -> (r: UnitName)
    ensures
        r@ == linked_unit(timer@, t@.unit),
{
    linked_to(timer, &t.unit)
}

/// Which timer triggered which unit, for the units that are still running.
pub struct Triggers {
    timers: NameMap<UnitName>,
}

/// [`Triggers`] by their characters: each triggered unit and its timer.
pub struct TriggersView {
    pub units: Seq<NameView>,
    pub timers: Seq<NameView>,
}

impl View for Triggers {
    type V = TriggersView;

    closed spec fn view(&self) -> TriggersView {
        TriggersView {
            units: self.timers.keys(),
            timers: name_set::names_view(self.timers.values()),
        }
    }
}

/// The timer that triggered a unit.
pub open spec fn trigger_of(t: TriggersView, n: NameView) -> Option<NameView> {
    if t.units.contains(n) {
        Some(t.timers[t.units.index_of(n)])
    } else {
        None
    }
}

/// Triggers without those of one unit.
pub open spec fn without_trigger(t: TriggersView, n: NameView) -> TriggersView {
    if t.units.contains(n) {
        TriggersView {
            units: t.units.remove(t.units.index_of(n)),
            timers: t.timers.remove(t.units.index_of(n)),
        }
    } else {
        t
    }
}

/// Triggers with one more; a unit has one timer.
pub open spec fn with_trigger(t: TriggersView, n: NameView, timer: NameView) -> TriggersView {
    if t.units.contains(n) {
        TriggersView { timers: t.timers.update(t.units.index_of(n), timer), ..t }
    } else {
        TriggersView { units: t.units.push(n), timers: t.timers.push(timer) }
    }
}

/// The unit that an event says is not active.
pub open spec fn deactivated(e: EventView) -> Option<NameView> {
    match e {
        EventView::StateChanged { unit, active, .. } => if active is Active {
            None
        } else {
            Some(unit)
        },
        EventView::UnitRemoved(unit) => Some(unit),
        _ => None,
    }
}

/// The timers of the triggered units that are not among those active.
pub open spec fn lapsed(t: TriggersView, active: Seq<NameView>, k: int) -> Seq<NameView>
    decreases k,
{
    if k <= 0 {
        seq![]
    } else if active.contains(t.units[k - 1]) {
        lapsed(t, active, k - 1)
    } else {
        lapsed(t, active, k - 1).push(t.timers[k - 1])
    }
}

/// The triggered units among those active, with their timers.
pub open spec fn lasting(t: TriggersView, active: Seq<NameView>, k: int) -> TriggersView
    decreases k,
{
    if k <= 0 {
        TriggersView { units: seq![], timers: seq![] }
    } else if active.contains(t.units[k - 1]) {
        let rest = lasting(t, active, k - 1);
        TriggersView {
            units: rest.units.push(t.units[k - 1]),
            timers: rest.timers.push(t.timers[k - 1]),
        }
    } else {
        lasting(t, active, k - 1)
    }
}

/// When a unit that a timer triggered deactivates, that timer is flipped back,
/// and once only; what other timers triggered stays as it was.
pub proof fn a_deactivated_unit_frees_its_timer(
    t: TriggersView,
    n: NameView,
    timer: NameView,
    other: NameView,
)
    requires
        t.units.no_duplicates(),
        t.units.len() == t.timers.len(),
        other != n,
    ensures
        trigger_of(with_trigger(t, n, timer), n) == Some(timer),
        trigger_of(without_trigger(with_trigger(t, n, timer), n), n) is None,
        trigger_of(without_trigger(with_trigger(t, n, timer), n), other) == trigger_of(t, other),
{
    let w = with_trigger(t, n, timer);
    assert(w.units.no_duplicates());
    if !t.units.contains(n) {
        assert(w.units[t.units.len() as int] == n);
    }
    assert(w.units.contains(n));
    let k = w.units.index_of(n);
    let v = without_trigger(w, n);
    if v.units.contains(n) {
        let j = v.units.index_of(n);
        assert(w.units[if j < k { j } else { j + 1 }] == n);
    }
    if t.units.contains(other) {
        let i = t.units.index_of(other);
        assert(w.units[i] == other);
        let j = if i < k { i } else { i - 1 };
        assert(v.units[j] == other);
        let l = v.units.index_of(other);
        assert(w.units[if l < k { l } else { l + 1 }] == other);
    } else if v.units.contains(other) {
        let l = v.units.index_of(other);
        let m = if l < k { l } else { l + 1 };
        assert(w.units[m] == other);
        assert(t.units[m] == other);
    }
}

proof fn lemma_lasting_new(t: TriggersView, active: Seq<NameView>, k: int, n: NameView)
    requires
        0 <= k < t.units.len(),
        t.units.no_duplicates(),
        n == t.units[k],
    ensures
        !lasting(t, active, k).units.contains(n),
{
    lemma_lasting_from(t, active, k);
    let r = lasting(t, active, k).units;
    if r.contains(n) {
        let i = choose|i: int| 0 <= i < r.len() && r[i] == n;
        let some = t.units.take(k);
        assert(some.contains(r[i]));
        let j = choose|j: int| 0 <= j < some.len() && some[j] == n;
        assert(t.units[j] == n);
    }
}

proof fn lemma_lasting_from(t: TriggersView, active: Seq<NameView>, k: int)
    requires
        0 <= k <= t.units.len(),
    ensures
        forall|i: int|
            0 <= i < lasting(t, active, k).units.len() ==> t.units.take(k).contains(
                #[trigger] lasting(t, active, k).units[i],
            ),
    decreases k,
{
    if k > 0 {
        lemma_lasting_from(t, active, k - 1);
        let r = lasting(t, active, k).units;
        let q = lasting(t, active, k - 1).units;
        assert forall|i: int| 0 <= i < r.len() implies t.units.take(k).contains(
            #[trigger] r[i],
        ) by {
            if i < q.len() {
                assert(r[i] == q[i]);
                let some = t.units.take(k - 1);
                assert(some.contains(q[i]));
                let j = choose|j: int| 0 <= j < some.len() && some[j] == q[i];
                assert(t.units.take(k)[j] == r[i]);
            } else {
                assert(t.units.take(k)[k - 1] == r[i]);
            }
        }
    }
}

impl Triggers {
    /// No triggers.
    pub fn new() -> (r: Self)
        ensures
            r@ == (TriggersView { units: seq![], timers: seq![] }),
    {
        let r = Triggers { timers: NameMap::new() };
        proof {
            assert(r@.timers =~= seq![]);
        }
        r
    }

    /// Records that a timer triggered a unit that keeps running.
    pub fn record(&mut self, unit: UnitName, timer: UnitName)
        ensures
            final(self)@ == with_trigger(old(self)@, unit@, timer@),
    {
        let ghost before = self.timers;
        self.timers.insert(unit, timer);
        proof {
            let k = before.keys();
            if k.contains(unit@) {
                assert(name_set::names_view(self.timers.values()) =~= name_set::names_view(
                    before.values(),
                ).update(k.index_of(unit@), timer@));
            } else {
                assert(name_set::names_view(self.timers.values()) =~= name_set::names_view(
                    before.values(),
                ).push(timer@));
            }
        }
    }

    /// A timer's unit was started and is in the state given: where it is active,
    /// the timer stays "running" until the unit deactivates. True where the timer
    /// goes back to "waiting" at once.
    pub fn fired(&mut self, unit: &UnitName, timer: &UnitName, active: ActiveState) -> (r: bool)
        ensures
            r == !(active is Active),
            final(self)@ == if active is Active {
                with_trigger(old(self)@, unit@, timer@)
            } else {
                old(self)@
            },
    {
        if active == ActiveState::Active {
            self.record(unit.clone(), timer.clone());
            false
        } else {
            true
        }
    }

    /// A unit went away: forgets its trigger and gives the timer to flip back to
    /// "waiting".
    pub fn removed(&mut self, unit: &UnitName) -> (r: Option<UnitName>)
        ensures
            name::opt_name(r) == trigger_of(old(self)@, unit@),
            final(self)@ == without_trigger(old(self)@, unit@),
    {
        let ghost before = self.timers;
        let r = self.timers.remove(unit);
        proof {
            let k = before.keys();
            if k.contains(unit@) {
                assert(name_set::names_view(self.timers.values()) =~= name_set::names_view(
                    before.values(),
                ).remove(k.index_of(unit@)));
            }
        }
        r
    }

    /// A unit changed its state: where it is no longer active, forgets its
    /// trigger and gives the timer to flip back to "waiting".
    pub fn state_changed(&mut self, unit: &UnitName, active: ActiveState) -> (r: Option<UnitName>)
        ensures
            name::opt_name(r) == if active is Active {
                None
            } else {
                trigger_of(old(self)@, unit@)
            },
            final(self)@ == if active is Active {
                old(self)@
            } else {
                without_trigger(old(self)@, unit@)
            },
    {
        if active == ActiveState::Active {
            None
        } else {
            self.removed(unit)
        }
    }

    /// Something happened to a unit: where it says that a triggered unit is no
    /// longer active, forgets the trigger and gives the timer to flip back to
    /// "waiting".
    pub fn observe(&mut self, event: &UnitEvent) -> (r: Option<UnitName>)
        ensures
            name::opt_name(r) == match deactivated(event@) {
                Some(n) => trigger_of(old(self)@, n),
                None => None,
            },
            final(self)@ == match deactivated(event@) {
                Some(n) => without_trigger(old(self)@, n),
                None => old(self)@,
            },
    {
        match event {
            UnitEvent::StateChanged { unit, active, .. } => self.state_changed(unit, *active),
            UnitEvent::UnitRemoved(unit) => self.removed(unit),
            _ => None,
        }
    }

    /// Events were missed: keeps the triggers of the units that are active, and
    /// gives the timers of the others.
    pub fn resync(&mut self, active: &NameTable) -> (r: Vec<UnitName>)
        ensures
            name_set::names_view(r@) == lapsed(
                old(self)@,
                active@,
                old(self)@.units.len() as int,
            ),
            final(self)@ == lasting(old(self)@, active@, old(self)@.units.len() as int),
    {
        let ghost was = self@;
        let n = self.timers.len();
        let mut flipped: Vec<UnitName> = Vec::new();
        let mut kept: NameMap<UnitName> = NameMap::new();
        let mut i: usize = 0;
        proof {
            assert(name_set::names_view(flipped@) =~= seq![]);
            assert(name_set::names_view(kept.values()) =~= seq![]);
        }
        while i < n
            invariant
                i <= n,
                n == was.units.len(),
                was == self@,
                was.units.no_duplicates(),
                was.units.len() == was.timers.len(),
                was.units == self.timers.keys(),
                self.timers.values().len() == n,
                was.timers == name_set::names_view(self.timers.values()),
                name_set::names_view(flipped@) == lapsed(was, active@, i as int),
                kept.keys() == lasting(was, active@, i as int).units,
                name_set::names_view(kept.values()) == lasting(was, active@, i as int).timers,
            decreases n - i,
        {
            let unit = self.timers.name_at(i);
            let timer = self.timers.value_at(i);
            if active.contains(unit) {
                let ghost before = kept.values();
                proof {
                    lemma_lasting_new(was, active@, i as int, unit@);
                }
                kept.insert(unit.clone(), timer.clone());
                proof {
                    assert(name_set::names_view(kept.values()) =~= name_set::names_view(
                        before,
                    ).push(timer@));
                }
            } else {
                let ghost before = flipped@;
                flipped.push(timer.clone());
                proof {
                    assert(name_set::names_view(flipped@) =~= name_set::names_view(before).push(
                        timer@,
                    ));
                }
            }
            i = i + 1;
        }
        self.timers = kept;
        flipped
    }
}

} // verus!
