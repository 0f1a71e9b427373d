//! Calendar next-fire computation.

use crate::civil;
use crate::civil::{days_in_month, is_before, weekday, Civil, DateTime, DateTimeView};
use crate::unit::calendar;
use crate::unit::calendar::{CalendarSpec, CalendarView, FieldSet};
use crate::unit::duration::TimeSpan;
use vstd::prelude::*;

verus! {

/// Whether a field allows a year.
pub open spec fn year_allowed(f: Option<Seq<u32>>, y: int) -> bool {
    f is None || (0 <= y && calendar::field_allows(f, y as u32))
}

/// The day of the week that a calendar shows.
pub open spec fn shown_weekday(c: Civil) -> u32 {
    civil::iso_weekday(c.year as int, c.month as int, c.day as int) as u32
}

/// Whether a calendar event fires when calendar and clock show this.
pub open spec fn fires(spec: CalendarView, c: Civil) -> bool {
    &&& year_allowed(spec.year, c.year as int)
    &&& calendar::field_allows(spec.month, c.month)
    &&& calendar::field_allows(spec.day, c.day)
    &&& calendar::field_allows(spec.weekdays, shown_weekday(c))
    &&& calendar::field_allows(spec.hour, c.hour)
    &&& calendar::field_allows(spec.minute, c.minute)
    &&& calendar::field_allows(spec.second, c.second)
}

/// Whether a calendar event fires at a second, counted from 1970-01-01 00:00:00
/// on the same clock.
pub open spec fn fires_at(spec: CalendarView, s: int) -> bool {
    exists|c: Civil| civil::is_civil(c) && #[trigger] civil::seconds(c) == s && fires(spec, c)
}

/// The first second from one on, and before another, at which a calendar event
/// fires.
pub open spec fn first_fire(spec: CalendarView, from: int, limit: int) -> Option<int>
    decreases limit - from,
{
    if from >= limit {
        None
    } else if fires_at(spec, from) {
        Some(from)
    } else {
        first_fire(spec, from + 1, limit)
    }
}

/// How far ahead the search goes, in seconds: ten years of 366 days.
pub const HORIZON: i64 = 316224000;

/// The later of `now` and `last`.
pub open spec fn baseline(now: DateTimeView, last: Option<DateTimeView>) -> DateTimeView {
    match last {
        Some(l) => if civil::earlier(now, l) {
            l
        } else {
            now
        },
        None => now,
    }
}

/// Whether a clock can show the end of the search that starts at an instant.
pub open spec fn in_reach(base: DateTimeView) -> bool {
    base.secs + base.offset + HORIZON <= civil::LAST_SECOND
}

/// The first whole second after an instant at which a calendar event fires,
/// within the horizon.
pub open spec fn next_after(spec: CalendarView, base: DateTimeView) -> Option<DateTimeView> {
    let local = base.secs + base.offset;
    match first_fire(spec, local + 1, local + HORIZON) {
        Some(s) => Some(DateTimeView { secs: s - base.offset, nanos: 0, offset: base.offset }),
        None => None,
    }
}

// ---------------------------------------------------------------------
// Skipping
// ---------------------------------------------------------------------

/// Where nothing fires between two seconds, the search may start at the later.
proof fn lemma_skip(spec: CalendarView, from: int, to: int, limit: int)
    requires
        from <= to,
        forall|s: int| from <= s < to ==> !(#[trigger] fires_at(spec, s)),
    ensures
        first_fire(spec, from, limit) == first_fire(spec, to, limit),
    decreases to - from,
{
    if from < to {
        lemma_skip(spec, from + 1, to, limit);
        assert(!fires_at(spec, from));
        if from >= limit {
            assert(first_fire(spec, to, limit) is None);
        }
    }
}

proof fn lemma_skip_civil(spec: CalendarView, a: Civil, b: Civil, limit: int)
    requires
        civil::is_civil(a),
        civil::is_civil(b),
        civil::civil_before(a, b),
        quiet(spec, a, b),
    ensures
        civil::seconds(a) < civil::seconds(b),
        first_fire(spec, civil::seconds(a), limit) == first_fire(spec, civil::seconds(b), limit),
{
    civil::seconds_grow(a, b);
    assert forall|s: int| civil::seconds(a) <= s < civil::seconds(b) implies !(
    #[trigger] fires_at(spec, s)) by {
        if fires_at(spec, s) {
            let u = choose|c: Civil|
                civil::is_civil(c) && #[trigger] civil::seconds(c) == s && fires(spec, c);
            civil::seconds_grow(u, a);
            civil::seconds_grow(u, b);
            assert(civil::is_civil(u));
        }
    }
    lemma_skip(spec, civil::seconds(a), civil::seconds(b), limit);
}

/// Whether nothing fires from one reading of calendar and clock to another.
spec fn quiet(spec: CalendarView, a: Civil, b: Civil) -> bool {
    forall|u: Civil| #[trigger]
        civil::is_civil(u) && !civil::civil_before(u, a) && civil::civil_before(u, b) ==> !fires(
            spec,
            u,
        )
}

/// The first value from `after` on that a field allows within bounds. A
/// wildcard allows the first of them.
fn next_in_set(fs: &FieldSet, after: u32, lo: u32, hi: u32) -> (r: Option<u32>)
    ensures
        match r {
            Some(v) => after <= v && lo <= v && (fs@ is None ==> v == after || v == lo) && (
            fs@ is Some ==> v <= hi && fs@->Some_0.contains(v) && forall|w: u32|
                after <= w && lo <= w <= hi && #[trigger] fs@->Some_0.contains(w) ==> v <= w),
            None => fs@ is Some && forall|w: u32|
                after <= w && lo <= w <= hi ==> !(#[trigger] fs@->Some_0.contains(w)),
        },
{
    match &fs.values {
        None => Some(if after < lo { lo } else { after }),
        Some(vs) => {
            let mut best: Option<u32> = None;
            let mut i: usize = 0;
            while i < vs.len()
                invariant
                    i <= vs.len(),
                    fs@ == Some(vs@),
                    match best {
                        Some(v) => after <= v && lo <= v <= hi && vs@.contains(v) && forall|j: int|
                            0 <= j < i && after <= vs@[j] && lo <= #[trigger] vs@[j] <= hi ==> v
                                <= vs@[j],
                        None => forall|j: int|
                            0 <= j < i ==> !(after <= vs@[j] && lo <= #[trigger] vs@[j] <= hi),
                    },
                decreases vs.len() - i,
            {
                let v = vs[i];
                if v >= lo && v <= hi && v >= after {
                    let better = match best {
                        Some(b) => v < b,
                        None => true,
                    };
                    if better {
                        best = Some(v);
                    }
                }
                i = i + 1;
            }
            best
        },
    }
}

/// The start of the next year.
fn next_year(c: Civil) -> (r: Civil)
    requires
        civil::is_civil(c),
        c.year <= 9999,
    ensures
        civil::is_civil(r),
        civil::civil_before(c, r),
        forall|u: Civil| #[trigger]
            civil::is_civil(u) && !civil::civil_before(u, c) && civil::civil_before(u, r) ==> u.year
                == c.year,
{
    Civil { year: c.year + 1, month: 1, day: 1, hour: 0, minute: 0, second: 0 }
}

/// The start of the next month.
fn next_month(c: Civil) -> (r: Civil)
    requires
        civil::is_civil(c),
        c.year <= 9999,
    ensures
        civil::is_civil(r),
        civil::civil_before(c, r),
        forall|u: Civil| #[trigger]
            civil::is_civil(u) && !civil::civil_before(u, c) && civil::civil_before(u, r) ==> u.year
                == c.year && u.month == c.month,
{
    if c.month == 12 {
        next_year(c)
    } else {
        Civil { year: c.year, month: c.month + 1, day: 1, hour: 0, minute: 0, second: 0 }
    }
}

/// The start of the next day.
fn next_day(c: Civil) -> (r: Civil)
    requires
        civil::is_civil(c),
        -9999 <= c.year <= 9999,
    ensures
        civil::is_civil(r),
        civil::civil_before(c, r),
        forall|u: Civil| #[trigger]
            civil::is_civil(u) && !civil::civil_before(u, c) && civil::civil_before(u, r) ==> u.year
                == c.year && u.month == c.month && u.day == c.day,
{
    if c.day >= days_in_month(c.year, c.month) {
        next_month(c)
    } else {
        Civil { year: c.year, month: c.month, day: c.day + 1, hour: 0, minute: 0, second: 0 }
    }
}

/// The start of the next hour.
fn next_hour(c: Civil) -> (r: Civil)
    requires
        civil::is_civil(c),
        -9999 <= c.year <= 9999,
    ensures
        civil::is_civil(r),
        civil::civil_before(c, r),
        forall|u: Civil| #[trigger]
            civil::is_civil(u) && !civil::civil_before(u, c) && civil::civil_before(u, r) ==> u.year
                == c.year && u.month == c.month && u.day == c.day && u.hour == c.hour,
{
    if c.hour == 23 {
        next_day(c)
    } else {
        Civil { hour: c.hour + 1, minute: 0, second: 0, ..c }
    }
}

/// The start of the next minute.
fn next_minute(c: Civil) -> (r: Civil)
    requires
        civil::is_civil(c),
        -9999 <= c.year <= 9999,
    ensures
        civil::is_civil(r),
        civil::civil_before(c, r),
        forall|u: Civil| #[trigger]
            civil::is_civil(u) && !civil::civil_before(u, c) && civil::civil_before(u, r) ==> u.year
                == c.year && u.month == c.month && u.day == c.day && u.hour == c.hour && u.minute
                == c.minute,
{
    if c.minute == 59 {
        next_hour(c)
    } else {
        Civil { minute: c.minute + 1, second: 0, ..c }
    }
}

/// What is known of one reading of calendar and clock.
enum Step {
    /// The event fires.
    Fires,
    /// Nothing fires before this later reading.
    Skip(Civil),
    /// Nothing fires from here on.
    Never,
}

spec fn step_holds(spec: CalendarView, c: Civil, s: Step) -> bool {
    match s {
        Step::Fires => fires(spec, c),
        Step::Skip(d) => civil::is_civil(d) && civil::civil_before(c, d) && quiet(spec, c, d),
        Step::Never => forall|u: Civil| #[trigger]
            civil::is_civil(u) && !civil::civil_before(u, c) ==> !fires(spec, u),
    }
}

fn year_matches(f: &FieldSet, y: i32) -> (r: bool)
    ensures
        r == year_allowed(f@, y as int),
{
    if y < 0 {
        f.values.is_none()
    } else {
        f.matches(y as u32)
    }
}

/// Where the year does not match: the start of the next one that does.
fn skip_year(spec: &CalendarSpec, c: Civil) -> (r: Step)
    requires
        civil::is_civil(c),
        -9999 <= c.year <= 9999,
        !year_allowed(spec@.year, c.year as int),
    ensures
        step_holds(spec@, c, r),
{
    let from: u32 = if c.year < 0 { 0 } else { c.year as u32 };
    match next_in_set(&spec.year, from, 0, u32::MAX) {
        None => {
            proof {
                assert forall|u: Civil| #[trigger]
                    civil::is_civil(u) && !civil::civil_before(u, c) implies !fires(spec@, u) by {
                    if u.year >= 0 {
                        assert(u.year as u32 >= from);
                    }
                }
            }
            Step::Never
        },
        Some(y) => {
            let y = if y > 10000 { 10000 } else { y as i32 };
            let d = Civil { year: y, month: 1, day: 1, hour: 0, minute: 0, second: 0 };
            proof {
                assert forall|u: Civil| #[trigger]
                    civil::is_civil(u) && !civil::civil_before(u, c) && civil::civil_before(
                        u,
                        d,
                    ) implies !fires(spec@, u) by {
                    if u.year >= 0 {
                        assert(from <= u.year as u32);
                        assert(u.year < y);
                    }
                }
            }
            Step::Skip(d)
        },
    }
}

/// Advances to the next value that matches, from the coarsest field to the
/// finest.
fn step(spec: &CalendarSpec, c: Civil) -> (r: Step)
    requires
        civil::is_civil(c),
        -9999 <= c.year <= 9999,
    ensures
        step_holds(spec@, c, r),
{
    if !year_matches(&spec.year, c.year) {
        return skip_year(spec, c);
    }
    if !spec.month.matches(c.month) {
        return Step::Skip(
            match next_in_set(&spec.month, c.month, 1, 12) {
                Some(m) => Civil { year: c.year, month: m, day: 1, hour: 0, minute: 0, second: 0 },
                None => next_year(c),
            },
        );
    }
    if !spec.day.matches(c.day) {
        let max_day = days_in_month(c.year, c.month);
        return Step::Skip(
            match next_in_set(&spec.day, c.day, 1, max_day) {
                Some(d) => Civil {
                    year: c.year,
                    month: c.month,
                    day: d,
                    hour: 0,
                    minute: 0,
                    second: 0,
                },
                None => next_month(c),
            },
        );
    }
    if !spec.weekdays.matches(weekday(c)) {
        return Step::Skip(next_day(c));
    }
    if !spec.hour.matches(c.hour) {
        return Step::Skip(
            match next_in_set(&spec.hour, c.hour, 0, 23) {
                Some(h) => Civil { hour: h, minute: 0, second: 0, ..c },
                None => next_day(c),
            },
        );
    }
    if !spec.minute.matches(c.minute) {
        return Step::Skip(
            match next_in_set(&spec.minute, c.minute, 0, 59) {
                Some(m) => Civil { minute: m, second: 0, ..c },
                None => next_hour(c),
            },
        );
    }
    if !spec.second.matches(c.second) {
        return Step::Skip(
            match next_in_set(&spec.second, c.second, 0, 59) {
                Some(s) => Civil { second: s, ..c },
                None => next_minute(c),
            },
        );
    }
    Step::Fires
}

/// How much of the search is left.
spec fn room(c: Civil, limit: int, ended: bool) -> nat {
    (if civil::seconds(c) < limit {
        limit - civil::seconds(c)
    } else {
        0
    } + if ended {
        0int
    } else {
        1int
    }) as nat
}

/// The first reading of calendar and clock from `first` on, and before `end`, at
/// which an event fires.
fn search(spec: &CalendarSpec, first: Civil, end: Civil) -> (r: Option<Civil>)
    requires
        civil::is_civil(first),
        civil::is_civil(end),
        -9999 <= first.year,
        end.year <= 9999,
    ensures
        match r {
            Some(c) => civil::is_civil(c) && -9999 <= c.year <= 9999 && first_fire(
                spec@,
                civil::seconds(first),
                civil::seconds(end),
            ) == Some(civil::seconds(c)),
            None => first_fire(spec@, civil::seconds(first), civil::seconds(end)) is None,
        },
{
    let ghost from = civil::seconds(first);
    let ghost limit = civil::seconds(end);
    let mut c = first;
    let mut fired = false;
    let mut never = false;
    while !fired && !never && is_before(c, end)
        invariant
            civil::is_civil(c),
            civil::is_civil(end),
            -9999 <= c.year,
            end.year <= 9999,
            civil::seconds(end) == limit,
            never ==> first_fire(spec@, from, limit) is None,
            !never ==> first_fire(spec@, from, limit) == first_fire(
                spec@,
                civil::seconds(c),
                limit,
            ),
            fired ==> !never && fires(spec@, c) && civil::civil_before(c, end),
        decreases room(c, limit, fired || never),
    {
        proof {
            civil::seconds_grow(c, end);
        }
        match step(spec, c) {
            Step::Fires => {
                fired = true;
            },
            Step::Skip(d) => {
                proof {
                    lemma_skip_civil(spec@, c, d, limit);
                }
                c = d;
            },
            Step::Never => {
                proof {
                    assert forall|s: int| civil::seconds(c) <= s < limit implies !(
                    #[trigger] fires_at(spec@, s)) by {
                        if fires_at(spec@, s) {
                            let u = choose|u: Civil|
                                civil::is_civil(u) && #[trigger] civil::seconds(u) == s && fires(
                                    spec@,
                                    u,
                                );
                            civil::seconds_grow(u, c);
                            assert(civil::is_civil(u));
                        }
                    }
                    lemma_skip(spec@, civil::seconds(c), limit, limit);
                }
                never = true;
            },
        }
    }
    proof {
        civil::seconds_grow(c, end);
    }
    if fired {
        proof {
            assert(fires_at(spec@, civil::seconds(c)));
        }
        Some(c)
    } else {
        None
    }
}

/// Compute the next instant strictly after `now` (and strictly after `last`,
/// if given) at which `spec` fires. Returns `None` if no time within ten years
/// matches (essentially "never").
///
/// The search decomposes the time into year, month, day, hour, minute and
/// second. For each field from coarsest to finest, it advances to the next
/// value that matches. If a coarser field changed, finer fields start over.
/// It goes on until the weekday matches too.
pub fn next_fire(now: DateTime, spec: &CalendarSpec, last: Option<DateTime>) -> (r: Option<
    DateTime,
>)
    requires
        in_reach(baseline(now@, civil::opt_instant(last))),
    ensures
        civil::opt_instant(r) == next_after(spec@, baseline(now@, civil::opt_instant(last))),
{
    let base = match last {
        Some(l) => if now.is_earlier(&l) {
            l
        } else {
            now
        },
        None => now,
    };
    let shown = base.civil();
    let first = match base.checked_add(TimeSpan { secs: 1, nanos: 0 }) {
        Some(t) => t.civil(),
        None => shown,
    };
    let end = match base.checked_add(TimeSpan { secs: HORIZON as u64, nanos: 0 }) {
        Some(t) => t.civil(),
        None => shown,
    };
    proof {
        assert(civil::seconds(first) == base@.secs + base@.offset + 1);
        assert(civil::seconds(end) == base@.secs + base@.offset + HORIZON);
    }
    match search(spec, first, end) {
        Some(c) => DateTime::from_civil(c, base.offset()),
        None => None,
    }
}

// ---------------------------------------------------------------------
// Laws
// ---------------------------------------------------------------------

proof fn lemma_first_fire(spec: CalendarView, from: int, limit: int)
    ensures
        match first_fire(spec, from, limit) {
            Some(s) => from <= s < limit && fires_at(spec, s) && forall|x: int|
                from <= x < s ==> !(#[trigger] fires_at(spec, x)),
            None => forall|x: int| from <= x < limit ==> !(#[trigger] fires_at(spec, x)),
        },
    decreases limit - from,
{
    if from < limit && !fires_at(spec, from) {
        lemma_first_fire(spec, from + 1, limit);
    }
}

/// The instant at which a calendar event fires next lies strictly after the
/// baseline, the event fires at it, and it fires at no whole second in between;
/// where there is none, the event fires at no whole second within the horizon.
pub proof fn next_fire_is_the_earliest(spec: CalendarView, base: DateTimeView)
    requires
        civil::is_instant(base),
    ensures
        match next_after(spec, base) {
            Some(t) => civil::earlier(base, t) && fires_at(spec, t.secs + t.offset) && forall|
                x: int,
            |
                base.secs < x < t.secs ==> !(#[trigger] fires_at(spec, x + t.offset)),
            None => forall|x: int|
                base.secs < x < base.secs + HORIZON ==> !(#[trigger] fires_at(
                    spec,
                    x + base.offset,
                )),
        },
{
    let local = base.secs + base.offset;
    lemma_first_fire(spec, local + 1, local + HORIZON);
}

} // verus!
