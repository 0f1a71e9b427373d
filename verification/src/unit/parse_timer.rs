//! The parser of the `[Timer]` section.

use crate::text::same;
use crate::unit::calendar;
use crate::unit::calendar::CalendarSpec;
use crate::unit::condition;
use crate::unit::condition::parse_bool;
use crate::unit::duration;
use crate::unit::duration::parse_duration;
use crate::unit::error;
use crate::unit::error::{ParseError, ParseErrorView, ParseWarning, ParseWarningView};
use crate::unit::ini;
use crate::unit::ini::{Entry, EntryView, Ini};
use crate::unit::name;
use crate::unit::name::UnitName;
use crate::unit::timer;
use crate::unit::timer::{TimerUnit, TimerView};
use crate::unit::values;
use crate::unit::values::bad;
use vstd::prelude::*;

verus! {

/// Directives that say when the timer elapses.
pub open spec fn timer_trigger(m: TimerView, key: Seq<char>, v: Seq<char>) -> Option<
    Result<TimerView, Seq<char>>,
> {
    if key == "OnCalendar"@ {
        Some(
            match calendar::calendar_of(v) {
                Ok(c) => Ok(TimerView { on_calendar: m.on_calendar.push(c), ..m }),
                Err(reason) => Err(reason),
            },
        )
    } else if key == "OnActiveSec"@ {
        Some(
            match duration::duration_of(v, 1) {
                Ok(d) => Ok(TimerView { on_active_sec: Some(d), ..m }),
                Err(reason) => Err(reason),
            },
        )
    } else if key == "OnBootSec"@ {
        Some(
            match duration::duration_of(v, 1) {
                Ok(d) => Ok(TimerView { on_boot_sec: Some(d), ..m }),
                Err(reason) => Err(reason),
            },
        )
    } else if key == "OnStartupSec"@ {
        Some(
            match duration::duration_of(v, 1) {
                Ok(d) => Ok(TimerView { on_startup_sec: Some(d), ..m }),
                Err(reason) => Err(reason),
            },
        )
    } else if key == "OnUnitActiveSec"@ {
        Some(
            match duration::duration_of(v, 1) {
                Ok(d) => Ok(TimerView { on_unit_active_sec: Some(d), ..m }),
                Err(reason) => Err(reason),
            },
        )
    } else if key == "OnUnitInactiveSec"@ {
        Some(
            match duration::duration_of(v, 1) {
                Ok(d) => Ok(TimerView { on_unit_inactive_sec: Some(d), ..m }),
                Err(reason) => Err(reason),
            },
        )
    } else if key == "AccuracySec"@ {
        Some(
            match duration::duration_of(v, 1) {
                Ok(d) => Ok(TimerView { accuracy_sec: Some(d), ..m }),
                Err(reason) => Err(reason),
            },
        )
    } else if key == "RandomizedDelaySec"@ {
        Some(
            match duration::duration_of(v, 1) {
                Ok(d) => Ok(TimerView { randomized_delay_sec: Some(d), ..m }),
                Err(reason) => Err(reason),
            },
        )
    } else {
        None
    }
}

/// Sets when the timer elapses.
fn set_timer_trigger(tm: &mut TimerUnit, key: &str, v: &str) -> (r: Result<bool, String>)
    ensures
        match r {
            Ok(true) => timer_trigger(old(tm)@, key@, v@) == Some(
                Ok::<TimerView, Seq<char>>(final(tm)@),
            ),
            Ok(false) => timer_trigger(old(tm)@, key@, v@) is None && final(tm)@ == old(tm)@,
            Err(reason) => timer_trigger(old(tm)@, key@, v@) == Some(
                Err::<TimerView, Seq<char>>(reason@),
            ),
        },
{
    if same(key, "OnCalendar") {
        match CalendarSpec::parse(v) {
            Ok(c) => {
                let ghost before = tm.on_calendar@;
                let item = c;
                tm.on_calendar.push(item);
                proof {
                    assert(calendar::calendars_view(tm.on_calendar@) =~= calendar::calendars_view(before).push(item@));
                }
            },
            Err(reason) => {
                return Err(reason);
            },
        }
    } else if same(key, "OnActiveSec") {
        match parse_duration(v, 1) {
            Ok(d) => {
                tm.on_active_sec = Some(d);
            },
            Err(reason) => {
                return Err(reason);
            },
        }
    } else if same(key, "OnBootSec") {
        match parse_duration(v, 1) {
            Ok(d) => {
                tm.on_boot_sec = Some(d);
            },
            Err(reason) => {
                return Err(reason);
            },
        }
    } else if same(key, "OnStartupSec") {
        match parse_duration(v, 1) {
            Ok(d) => {
                tm.on_startup_sec = Some(d);
            },
            Err(reason) => {
                return Err(reason);
            },
        }
    } else if same(key, "OnUnitActiveSec") {
        match parse_duration(v, 1) {
            Ok(d) => {
                tm.on_unit_active_sec = Some(d);
            },
            Err(reason) => {
                return Err(reason);
            },
        }
    } else if same(key, "OnUnitInactiveSec") {
        match parse_duration(v, 1) {
            Ok(d) => {
                tm.on_unit_inactive_sec = Some(d);
            },
            Err(reason) => {
                return Err(reason);
            },
        }
    } else if same(key, "AccuracySec") {
        match parse_duration(v, 1) {
            Ok(d) => {
                tm.accuracy_sec = Some(d);
            },
            Err(reason) => {
                return Err(reason);
            },
        }
    } else if same(key, "RandomizedDelaySec") {
        match parse_duration(v, 1) {
            Ok(d) => {
                tm.randomized_delay_sec = Some(d);
            },
            Err(reason) => {
                return Err(reason);
            },
        }
    } else {
        return Ok(false);
    }
    Ok(true)
}

/// Directives that are a boolean, and the linked unit.
pub open spec fn timer_switch(m: TimerView, key: Seq<char>, v: Seq<char>) -> Option<
    Result<TimerView, Seq<char>>,
> {
    if key == "OnClockChange"@ {
        Some(
            match condition::bool_of(v) {
                Some(b) => Ok(TimerView { on_clock_change: b, ..m }),
                None => Err("bool"@),
            },
        )
    } else if key == "OnTimezoneChange"@ {
        Some(
            match condition::bool_of(v) {
                Some(b) => Ok(TimerView { on_timezone_change: b, ..m }),
                None => Err("bool"@),
            },
        )
    } else if key == "FixedRandomDelay"@ {
        Some(
            match condition::bool_of(v) {
                Some(b) => Ok(TimerView { fixed_random_delay: b, ..m }),
                None => Err("bool"@),
            },
        )
    } else if key == "Persistent"@ {
        Some(
            match condition::bool_of(v) {
                Some(b) => Ok(TimerView { persistent: b, ..m }),
                None => Err("bool"@),
            },
        )
    } else if key == "WakeSystem"@ {
        Some(
            match condition::bool_of(v) {
                Some(b) => Ok(TimerView { wake_system: b, ..m }),
                None => Err("bool"@),
            },
        )
    } else if key == "RemainAfterElapse"@ {
        Some(
            match condition::bool_of(v) {
                Some(b) => Ok(TimerView { remain_after_elapse: b, ..m }),
                None => Err("bool"@),
            },
        )
    } else if key == "DeferReactivation"@ {
        Some(
            match condition::bool_of(v) {
                Some(b) => Ok(TimerView { defer_reactivation: b, ..m }),
                None => Err("bool"@),
            },
        )
    } else if key == "Unit"@ {
        Some(
            match name::parse_name(v) {
                Ok(n) => Ok(TimerView { unit: Some(n), ..m }),
                Err(_) => Err("unit name"@),
            },
        )
    } else {
        None
    }
}

/// Sets a boolean or the linked unit.
fn set_timer_switch(tm: &mut TimerUnit, key: &str, v: &str) -> (r: Result<bool, String>)
    ensures
        match r {
            Ok(true) => timer_switch(old(tm)@, key@, v@) == Some(
                Ok::<TimerView, Seq<char>>(final(tm)@),
            ),
            Ok(false) => timer_switch(old(tm)@, key@, v@) is None && final(tm)@ == old(tm)@,
            Err(reason) => timer_switch(old(tm)@, key@, v@) == Some(
                Err::<TimerView, Seq<char>>(reason@),
            ),
        },
{
    if same(key, "OnClockChange") {
        match parse_bool(v) {
            Some(b) => {
                tm.on_clock_change = b;
            },
            None => {
                return Err("bool".to_owned());
            },
        }
    } else if same(key, "OnTimezoneChange") {
        match parse_bool(v) {
            Some(b) => {
                tm.on_timezone_change = b;
            },
            None => {
                return Err("bool".to_owned());
            },
        }
    } else if same(key, "FixedRandomDelay") {
        match parse_bool(v) {
            Some(b) => {
                tm.fixed_random_delay = b;
            },
            None => {
                return Err("bool".to_owned());
            },
        }
    } else if same(key, "Persistent") {
        match parse_bool(v) {
            Some(b) => {
                tm.persistent = b;
            },
            None => {
                return Err("bool".to_owned());
            },
        }
    } else if same(key, "WakeSystem") {
        match parse_bool(v) {
            Some(b) => {
                tm.wake_system = b;
            },
            None => {
                return Err("bool".to_owned());
            },
        }
    } else if same(key, "RemainAfterElapse") {
        match parse_bool(v) {
            Some(b) => {
                tm.remain_after_elapse = b;
            },
            None => {
                return Err("bool".to_owned());
            },
        }
    } else if same(key, "DeferReactivation") {
        match parse_bool(v) {
            Some(b) => {
                tm.defer_reactivation = b;
            },
            None => {
                return Err("bool".to_owned());
            },
        }
    } else if same(key, "Unit") {
        match UnitName::from_str(v) {
            Ok(n) => {
                tm.unit = Some(n);
            },
            Err(_) => {
                return Err("unit name".to_owned());
            },
        }
    } else {
        return Ok(false);
    }
    Ok(true)
}

/// What a directive does to the section; `None` where it is not known.
pub open spec fn timer_directive(m: TimerView, key: Seq<char>, v: Seq<char>) -> Option<
    Result<TimerView, Seq<char>>,
> {
    if timer_trigger(m, key, v) is Some {
        timer_trigger(m, key, v)
    } else {
        timer_switch(m, key, v)
    }
}

/// Applies a directive; false where it is not known.
fn set_timer_directive(tm: &mut TimerUnit, key: &str, v: &str) -> (r: Result<bool, String>)
    ensures
        match r {
            Ok(true) => timer_directive(old(tm)@, key@, v@) == Some(
                Ok::<TimerView, Seq<char>>(final(tm)@),
            ),
            Ok(false) => timer_directive(old(tm)@, key@, v@) is None && final(tm)@ == old(tm)@,
            Err(reason) => timer_directive(old(tm)@, key@, v@) == Some(
                Err::<TimerView, Seq<char>>(reason@),
            ),
        },
{
    match set_timer_trigger(tm, key, v) {
        Ok(true) => {
            return Ok(true);
        },
        Ok(false) => {},
        Err(reason) => {
            return Err(reason);
        },
    }
    set_timer_switch(tm, key, v)
}

/// The section before any directive.
pub open spec fn fresh_timer() -> TimerView {
    TimerView { remain_after_elapse: true, ..timer::empty_timer() }
}

/// What one entry adds to the section and to the warnings.
pub open spec fn timer_step(
    path: Seq<char>,
    m: TimerView,
    ws: Seq<ParseWarningView>,
    e: EntryView,
) -> Result<(TimerView, Seq<ParseWarningView>), ParseErrorView> {
    match timer_directive(m, e.key, e.value) {
        Some(Ok(n)) => Ok((n, ws)),
        Some(Err(reason)) => Err(values::bad_directive(path, "Timer"@, e, reason)),
        None => Ok(
            (
                m,
                ws.push(error::unknown_warning(Some(path), e.line, "Timer"@, e.key)),
            ),
        ),
    }
}

/// What entries add to the section and to the warnings, up to the first that
/// is wrong.
pub open spec fn timer_entries(
    path: Seq<char>,
    es: Seq<EntryView>,
    m: TimerView,
    ws: Seq<ParseWarningView>,
) -> Result<(TimerView, Seq<ParseWarningView>), ParseErrorView>
    decreases es.len(),
{
    if es.len() == 0 {
        Ok((m, ws))
    } else {
        match timer_step(path, m, ws, es[0]) {
            Err(e) => Err(e),
            Ok((n, vs)) => timer_entries(path, es.skip(1), n, vs),
        }
    }
}

fn apply_timer_entry(
    path: &str,
    tm: &mut TimerUnit,
    e: &Entry,
    warnings: &mut Vec<ParseWarning>,
) -> (r: Result<(), ParseError>)
    ensures
        match r {
            Ok(()) => timer_step(
                path@,
                old(tm)@,
                values::warnings_view(old(warnings)@),
                e@,
            ) == Ok::<(TimerView, Seq<ParseWarningView>), ParseErrorView>(
                (final(tm)@, values::warnings_view(final(warnings)@)),
            ),
            Err(x) => timer_step(
                path@,
                old(tm)@,
                values::warnings_view(old(warnings)@),
                e@,
            ) == Err::<(TimerView, Seq<ParseWarningView>), ParseErrorView>(x@),
        },
{
    let key = e.key.as_str();
    let ghost before = warnings@;
    match set_timer_directive(tm, key, e.value.as_str()) {
        Ok(true) => Ok(()),
        Ok(false) => {
            let w = ParseWarning::unknown(Some(path.to_owned()), e.line, "Timer", key);
            warnings.push(w);
            proof {
                values::lemma_warnings_push(before, w);
            }
            Ok(())
        },
        Err(reason) => Err(bad(path, "Timer", e, reason.as_str())),
    }
}

/// Parses the `[Timer]` section.
pub fn parse_timer(ini: &Ini, path: &str, warnings: &mut Vec<ParseWarning>) -> (r: Result<
    TimerUnit,
    ParseError,
>)
    ensures
        match r {
            Ok(tm) => timer_entries(
                path@,
                ini::entries_or_none(ini@, "Timer"@),
                fresh_timer(),
                values::warnings_view(old(warnings)@),
            ) == Ok::<(TimerView, Seq<ParseWarningView>), ParseErrorView>(
                (tm@, values::warnings_view(final(warnings)@)),
            ),
            Err(x) => timer_entries(
                path@,
                ini::entries_or_none(ini@, "Timer"@),
                fresh_timer(),
                values::warnings_view(old(warnings)@),
            ) == Err::<(TimerView, Seq<ParseWarningView>), ParseErrorView>(x@),
        },
{
    let mut tm = TimerUnit::default();
    tm.remain_after_elapse = true;
    match ini.get("Timer") {
        None => Ok(tm),
        Some(entries) => {
            let mut i: usize = 0;
            let ghost all = ini::entries_view(entries@);
            let ghost ws = values::warnings_view(warnings@);
            proof {
                assert(all.skip(0) =~= all);
            }
            while i < entries.len()
                invariant
                    i <= entries.len(),
                    all == ini::entries_view(entries@),
                    all == ini::entries_or_none(ini@, "Timer"@),
                    ws == values::warnings_view(old(warnings)@),
                    timer_entries(path@, all, fresh_timer(), ws) == timer_entries(
                        path@,
                        all.skip(i as int),
                        tm@,
                        values::warnings_view(warnings@),
                    ),
                decreases entries.len() - i,
            {
                proof {
                    assert(all.skip(i as int)[0] == entries@[i as int]@);
                    assert(all.skip(i as int).skip(1) =~= all.skip(i + 1));
                }
                if let Err(x) = apply_timer_entry(path, &mut tm, &entries[i], warnings) {
                    return Err(x);
                }
                i = i + 1;
            }
            Ok(tm)
        },
    }
}

} // verus!
