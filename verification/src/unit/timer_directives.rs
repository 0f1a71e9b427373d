//! What a timer has from the entries of its `[Timer]` section.

use crate::unit::calendar;
use crate::unit::condition;
use crate::unit::duration;
use crate::unit::entries;
use crate::unit::error::ParseWarningView;
use crate::unit::ini;
use crate::unit::ini::{EntryView, SectionView};
use crate::unit::name;
use crate::unit::name::NameView;
use crate::unit::parse_timer;
use crate::unit::spec;
use crate::unit::spec::UnitView;
use crate::unit::spelling;
use crate::unit::timer::TimerView;
use vstd::prelude::*;

verus! {

/// The names of the directives of triggers.
spec fn in_trigger(k: Seq<char>) -> bool {
    ||| k == "OnCalendar"@
    ||| k == "OnActiveSec"@
    ||| k == "OnBootSec"@
    ||| k == "OnStartupSec"@
    ||| k == "OnUnitActiveSec"@
    ||| k == "OnUnitInactiveSec"@
    ||| k == "AccuracySec"@
    ||| k == "RandomizedDelaySec"@
}

proof fn lemma_trigger(m: TimerView, k: Seq<char>, v: Seq<char>)
    ensures
        parse_timer::timer_trigger(m, k, v) is Some <==> in_trigger(k),
        parse_timer::timer_trigger(m, k, v) matches Some(Ok(n)) ==> {
            &&& n == (TimerView { on_calendar: n.on_calendar, on_active_sec: n.on_active_sec, on_boot_sec: n.on_boot_sec, on_startup_sec: n.on_startup_sec, on_unit_active_sec: n.on_unit_active_sec, on_unit_inactive_sec: n.on_unit_inactive_sec, accuracy_sec: n.accuracy_sec, randomized_delay_sec: n.randomized_delay_sec, ..m })
            &&& (n.on_calendar == if k == "OnCalendar"@ {
m.on_calendar.push(calendar::calendar_of(v)->Ok_0)
} else {
m.on_calendar
}) && (k == "OnCalendar"@ ==> calendar::calendar_of(v) is Ok)
            &&& (n.on_active_sec == if k == "OnActiveSec"@ {
Some(duration::duration_of(v, 1)->Ok_0)
} else {
m.on_active_sec
}) && (k == "OnActiveSec"@ ==> duration::duration_of(v, 1) is Ok)
            &&& (n.on_boot_sec == if k == "OnBootSec"@ {
Some(duration::duration_of(v, 1)->Ok_0)
} else {
m.on_boot_sec
}) && (k == "OnBootSec"@ ==> duration::duration_of(v, 1) is Ok)
            &&& (n.on_startup_sec == if k == "OnStartupSec"@ {
Some(duration::duration_of(v, 1)->Ok_0)
} else {
m.on_startup_sec
}) && (k == "OnStartupSec"@ ==> duration::duration_of(v, 1) is Ok)
            &&& (n.on_unit_active_sec == if k == "OnUnitActiveSec"@ {
Some(duration::duration_of(v, 1)->Ok_0)
} else {
m.on_unit_active_sec
}) && (k == "OnUnitActiveSec"@ ==> duration::duration_of(v, 1) is Ok)
            &&& (n.on_unit_inactive_sec == if k == "OnUnitInactiveSec"@ {
Some(duration::duration_of(v, 1)->Ok_0)
} else {
m.on_unit_inactive_sec
}) && (k == "OnUnitInactiveSec"@ ==> duration::duration_of(v, 1) is Ok)
            &&& (n.accuracy_sec == if k == "AccuracySec"@ {
Some(duration::duration_of(v, 1)->Ok_0)
} else {
m.accuracy_sec
}) && (k == "AccuracySec"@ ==> duration::duration_of(v, 1) is Ok)
            &&& (n.randomized_delay_sec == if k == "RandomizedDelaySec"@ {
Some(duration::duration_of(v, 1)->Ok_0)
} else {
m.randomized_delay_sec
}) && (k == "RandomizedDelaySec"@ ==> duration::duration_of(v, 1) is Ok)
        },
{
    spelling::lemma_timer_trigger_marks();
}

/// The names of the directives of switches.
spec fn in_switch(k: Seq<char>) -> bool {
    ||| k == "OnClockChange"@
    ||| k == "OnTimezoneChange"@
    ||| k == "FixedRandomDelay"@
    ||| k == "Persistent"@
    ||| k == "WakeSystem"@
    ||| k == "RemainAfterElapse"@
    ||| k == "DeferReactivation"@
    ||| k == "Unit"@
}

proof fn lemma_switch(m: TimerView, k: Seq<char>, v: Seq<char>)
    ensures
        parse_timer::timer_switch(m, k, v) is Some <==> in_switch(k),
        parse_timer::timer_switch(m, k, v) matches Some(Ok(n)) ==> {
            &&& n == (TimerView { on_clock_change: n.on_clock_change, on_timezone_change: n.on_timezone_change, fixed_random_delay: n.fixed_random_delay, persistent: n.persistent, wake_system: n.wake_system, remain_after_elapse: n.remain_after_elapse, defer_reactivation: n.defer_reactivation, unit: n.unit, ..m })
            &&& (n.on_clock_change == if k == "OnClockChange"@ {
condition::bool_of(v)->Some_0
} else {
m.on_clock_change
}) && (k == "OnClockChange"@ ==> condition::bool_of(v) is Some)
            &&& (n.on_timezone_change == if k == "OnTimezoneChange"@ {
condition::bool_of(v)->Some_0
} else {
m.on_timezone_change
}) && (k == "OnTimezoneChange"@ ==> condition::bool_of(v) is Some)
            &&& (n.fixed_random_delay == if k == "FixedRandomDelay"@ {
condition::bool_of(v)->Some_0
} else {
m.fixed_random_delay
}) && (k == "FixedRandomDelay"@ ==> condition::bool_of(v) is Some)
            &&& (n.persistent == if k == "Persistent"@ {
condition::bool_of(v)->Some_0
} else {
m.persistent
}) && (k == "Persistent"@ ==> condition::bool_of(v) is Some)
            &&& (n.wake_system == if k == "WakeSystem"@ {
condition::bool_of(v)->Some_0
} else {
m.wake_system
}) && (k == "WakeSystem"@ ==> condition::bool_of(v) is Some)
            &&& (n.remain_after_elapse == if k == "RemainAfterElapse"@ {
condition::bool_of(v)->Some_0
} else {
m.remain_after_elapse
}) && (k == "RemainAfterElapse"@ ==> condition::bool_of(v) is Some)
            &&& (n.defer_reactivation == if k == "DeferReactivation"@ {
condition::bool_of(v)->Some_0
} else {
m.defer_reactivation
}) && (k == "DeferReactivation"@ ==> condition::bool_of(v) is Some)
            &&& (n.unit == if k == "Unit"@ {
Some(name::parse_name(v)->Ok_0)
} else {
m.unit
}) && (k == "Unit"@ ==> name::parse_name(v) is Ok)
        },
{
    spelling::lemma_timer_switch_marks();
}

proof fn lemma_one_place(k: Seq<char>)
    ensures
        in_trigger(k) ==> !in_switch(k),
        in_switch(k) ==> !in_trigger(k),
{
    spelling::lemma_timer_marks();
}

proof fn lemma_last(path: Seq<char>, es: Seq<EntryView>, m: TimerView, ws: Seq<ParseWarningView>)
    requires
        es.len() > 0,
        parse_timer::timer_entries(path, es, m, ws) is Ok,
    ensures
        parse_timer::timer_entries(path, es.drop_last(), m, ws) matches Ok((n, vs)) && parse_timer::timer_entries(
            path,
            es,
            m,
            ws,
        ) == parse_timer::timer_step(path, n, vs, es.last()),
    decreases es.len(),
{
    let (n, vs) = parse_timer::timer_step(path, m, ws, es[0])->Ok_0;
    let rest = es.skip(1);
    if rest.len() == 0 {
        assert(es.drop_last() =~= seq![]);
    } else {
        lemma_last(path, rest, n, vs);
        assert(rest.last() == es.last());
        assert(es.drop_last().skip(1) =~= rest.drop_last());
        assert(es.drop_last()[0] == es[0]);
    }
}

proof fn lemma_trigger_step(path: Seq<char>, m: TimerView, ws: Seq<ParseWarningView>, e: EntryView)
    requires
        parse_timer::timer_step(path, m, ws, e) is Ok,
    ensures
        ({
            let n = parse_timer::timer_step(path, m, ws, e)->Ok_0.0;
            &&& (n.on_calendar == if e.key == "OnCalendar"@ {
m.on_calendar.push(calendar::calendar_of(e.value)->Ok_0)
} else {
m.on_calendar
}) && (e.key == "OnCalendar"@ ==> calendar::calendar_of(e.value) is Ok)
            &&& (n.on_active_sec == if e.key == "OnActiveSec"@ {
Some(duration::duration_of(e.value, 1)->Ok_0)
} else {
m.on_active_sec
}) && (e.key == "OnActiveSec"@ ==> duration::duration_of(e.value, 1) is Ok)
            &&& (n.on_boot_sec == if e.key == "OnBootSec"@ {
Some(duration::duration_of(e.value, 1)->Ok_0)
} else {
m.on_boot_sec
}) && (e.key == "OnBootSec"@ ==> duration::duration_of(e.value, 1) is Ok)
            &&& (n.on_startup_sec == if e.key == "OnStartupSec"@ {
Some(duration::duration_of(e.value, 1)->Ok_0)
} else {
m.on_startup_sec
}) && (e.key == "OnStartupSec"@ ==> duration::duration_of(e.value, 1) is Ok)
            &&& (n.on_unit_active_sec == if e.key == "OnUnitActiveSec"@ {
Some(duration::duration_of(e.value, 1)->Ok_0)
} else {
m.on_unit_active_sec
}) && (e.key == "OnUnitActiveSec"@ ==> duration::duration_of(e.value, 1) is Ok)
            &&& (n.on_unit_inactive_sec == if e.key == "OnUnitInactiveSec"@ {
Some(duration::duration_of(e.value, 1)->Ok_0)
} else {
m.on_unit_inactive_sec
}) && (e.key == "OnUnitInactiveSec"@ ==> duration::duration_of(e.value, 1) is Ok)
            &&& (n.accuracy_sec == if e.key == "AccuracySec"@ {
Some(duration::duration_of(e.value, 1)->Ok_0)
} else {
m.accuracy_sec
}) && (e.key == "AccuracySec"@ ==> duration::duration_of(e.value, 1) is Ok)
            &&& (n.randomized_delay_sec == if e.key == "RandomizedDelaySec"@ {
Some(duration::duration_of(e.value, 1)->Ok_0)
} else {
m.randomized_delay_sec
}) && (e.key == "RandomizedDelaySec"@ ==> duration::duration_of(e.value, 1) is Ok)
        }),
{
    lemma_one_place(e.key);
    lemma_trigger(m, e.key, e.value);
    lemma_switch(m, e.key, e.value);
}

/// Each trigger is the one that its own directive gives.
pub open spec fn triggers_are_given(s: TimerView, es: Seq<EntryView>) -> bool {
    &&& s.on_calendar == entries::events_of(entries::values_of(es, "OnCalendar"@))
    &&& s.on_active_sec == match entries::last_of(es, "OnActiveSec"@) {
        Some(v) => Some(duration::duration_of(v, 1)->Ok_0),
        None => None,
    }
    &&& s.on_boot_sec == match entries::last_of(es, "OnBootSec"@) {
        Some(v) => Some(duration::duration_of(v, 1)->Ok_0),
        None => None,
    }
    &&& s.on_startup_sec == match entries::last_of(es, "OnStartupSec"@) {
        Some(v) => Some(duration::duration_of(v, 1)->Ok_0),
        None => None,
    }
    &&& s.on_unit_active_sec == match entries::last_of(es, "OnUnitActiveSec"@) {
        Some(v) => Some(duration::duration_of(v, 1)->Ok_0),
        None => None,
    }
    &&& s.on_unit_inactive_sec == match entries::last_of(es, "OnUnitInactiveSec"@) {
        Some(v) => Some(duration::duration_of(v, 1)->Ok_0),
        None => None,
    }
    &&& s.accuracy_sec == match entries::last_of(es, "AccuracySec"@) {
        Some(v) => Some(duration::duration_of(v, 1)->Ok_0),
        None => None,
    }
    &&& s.randomized_delay_sec == match entries::last_of(es, "RandomizedDelaySec"@) {
        Some(v) => Some(duration::duration_of(v, 1)->Ok_0),
        None => None,
    }
}

proof fn lemma_trigger_fold(path: Seq<char>, es: Seq<EntryView>, ws: Seq<ParseWarningView>)
    requires
        parse_timer::timer_entries(path, es, parse_timer::fresh_timer(), ws) is Ok,
    ensures
        triggers_are_given(parse_timer::timer_entries(path, es, parse_timer::fresh_timer(), ws)->Ok_0.0, es),
    decreases es.len(),
{
    if es.len() > 0 {
        let m = parse_timer::fresh_timer();
        lemma_last(path, es, m, ws);
        let before = es.drop_last();
        let (n, vs) = parse_timer::timer_entries(path, before, m, ws)->Ok_0;
        lemma_trigger_fold(path, before, ws);
        lemma_trigger_step(path, n, vs, es.last());
        entries::lemma_one_more(entries::values_of(before, "OnCalendar"@), es.last().value);
    }
}

proof fn lemma_switch_step(path: Seq<char>, m: TimerView, ws: Seq<ParseWarningView>, e: EntryView)
    requires
        parse_timer::timer_step(path, m, ws, e) is Ok,
    ensures
        ({
            let n = parse_timer::timer_step(path, m, ws, e)->Ok_0.0;
            &&& (n.on_clock_change == if e.key == "OnClockChange"@ {
condition::bool_of(e.value)->Some_0
} else {
m.on_clock_change
}) && (e.key == "OnClockChange"@ ==> condition::bool_of(e.value) is Some)
            &&& (n.on_timezone_change == if e.key == "OnTimezoneChange"@ {
condition::bool_of(e.value)->Some_0
} else {
m.on_timezone_change
}) && (e.key == "OnTimezoneChange"@ ==> condition::bool_of(e.value) is Some)
            &&& (n.fixed_random_delay == if e.key == "FixedRandomDelay"@ {
condition::bool_of(e.value)->Some_0
} else {
m.fixed_random_delay
}) && (e.key == "FixedRandomDelay"@ ==> condition::bool_of(e.value) is Some)
            &&& (n.persistent == if e.key == "Persistent"@ {
condition::bool_of(e.value)->Some_0
} else {
m.persistent
}) && (e.key == "Persistent"@ ==> condition::bool_of(e.value) is Some)
            &&& (n.wake_system == if e.key == "WakeSystem"@ {
condition::bool_of(e.value)->Some_0
} else {
m.wake_system
}) && (e.key == "WakeSystem"@ ==> condition::bool_of(e.value) is Some)
            &&& (n.remain_after_elapse == if e.key == "RemainAfterElapse"@ {
condition::bool_of(e.value)->Some_0
} else {
m.remain_after_elapse
}) && (e.key == "RemainAfterElapse"@ ==> condition::bool_of(e.value) is Some)
            &&& (n.defer_reactivation == if e.key == "DeferReactivation"@ {
condition::bool_of(e.value)->Some_0
} else {
m.defer_reactivation
}) && (e.key == "DeferReactivation"@ ==> condition::bool_of(e.value) is Some)
            &&& (n.unit == if e.key == "Unit"@ {
Some(name::parse_name(e.value)->Ok_0)
} else {
m.unit
}) && (e.key == "Unit"@ ==> name::parse_name(e.value) is Ok)
        }),
{
    lemma_one_place(e.key);
    lemma_trigger(m, e.key, e.value);
    lemma_switch(m, e.key, e.value);
}

/// Each switch is the last that its own directive gives.
pub open spec fn switches_are_given(s: TimerView, es: Seq<EntryView>) -> bool {
    &&& s.on_clock_change == match entries::last_of(es, "OnClockChange"@) {
        Some(v) => condition::bool_of(v)->Some_0,
        None => false,
    }
    &&& s.on_timezone_change == match entries::last_of(es, "OnTimezoneChange"@) {
        Some(v) => condition::bool_of(v)->Some_0,
        None => false,
    }
    &&& s.fixed_random_delay == match entries::last_of(es, "FixedRandomDelay"@) {
        Some(v) => condition::bool_of(v)->Some_0,
        None => false,
    }
    &&& s.persistent == match entries::last_of(es, "Persistent"@) {
        Some(v) => condition::bool_of(v)->Some_0,
        None => false,
    }
    &&& s.wake_system == match entries::last_of(es, "WakeSystem"@) {
        Some(v) => condition::bool_of(v)->Some_0,
        None => false,
    }
    &&& s.remain_after_elapse == match entries::last_of(es, "RemainAfterElapse"@) {
        Some(v) => condition::bool_of(v)->Some_0,
        None => true,
    }
    &&& s.defer_reactivation == match entries::last_of(es, "DeferReactivation"@) {
        Some(v) => condition::bool_of(v)->Some_0,
        None => false,
    }
    &&& s.unit == match entries::last_of(es, "Unit"@) {
        Some(v) => Some(name::parse_name(v)->Ok_0),
        None => None,
    }
}

proof fn lemma_switch_fold(path: Seq<char>, es: Seq<EntryView>, ws: Seq<ParseWarningView>)
    requires
        parse_timer::timer_entries(path, es, parse_timer::fresh_timer(), ws) is Ok,
    ensures
        switches_are_given(parse_timer::timer_entries(path, es, parse_timer::fresh_timer(), ws)->Ok_0.0, es),
    decreases es.len(),
{
    if es.len() > 0 {
        let m = parse_timer::fresh_timer();
        lemma_last(path, es, m, ws);
        let before = es.drop_last();
        let (n, vs) = parse_timer::timer_entries(path, before, m, ws)->Ok_0;
        lemma_switch_fold(path, before, ws);
        lemma_switch_step(path, n, vs, es.last());
    }
}

/// The timer that a file makes.
pub open spec fn timer_of_file(
    name: NameView,
    path: Seq<char>,
    source: Seq<char>,
    sections: Seq<SectionView>,
) -> TimerView {
    spec::unit_of_sections(name, path, source, sections)->Ok_0.0.kind->Timer_0
}

proof fn lemma_of_file(
    name: NameView,
    path: Seq<char>,
    source: Seq<char>,
    sections: Seq<SectionView>,
) -> (ws: Seq<ParseWarningView>)
    requires
        spec::unit_of_sections(name, path, source, sections) is Ok,
        name.kind is Timer,
    ensures
        ({
            let r = parse_timer::timer_entries(
                path,
                ini::entries_or_none(sections, "Timer"@),
                parse_timer::fresh_timer(),
                ws,
            );
            &&& r is Ok
            &&& spec::unit_of_sections(name, path, source, sections)->Ok_0.0.kind is Timer
            &&& timer_of_file(name, path, source, sections) == r->Ok_0.0
        }),
{
    let m0 = UnitView { raw: sections, source, ..spec::empty_unit(name) };
    let es = ini::entries_or_none(sections, "Unit"@);
    let (m, ws) = spec::unit_entries(path, es, m0, seq![])->Ok_0;
    spec::lemma_entries_keep_name(path, es, m0, seq![]);
    let is = ini::entries_or_none(sections, "Install"@);
    spec::lemma_install_keeps_name(path, is, m, ws);
    spec::install_entries(path, is, m, ws).1
}

/// The calendar events of a timer are, in order, those of its `OnCalendar=`
/// entries, and each span of time is that of the last entry of `[Timer]` with that
/// very name.
pub proof fn timer_triggers_are_those_given(
    name: NameView,
    path: Seq<char>,
    source: Seq<char>,
    sections: Seq<SectionView>,
)
    requires
        spec::unit_of_sections(name, path, source, sections) is Ok,
        name.kind is Timer,
    ensures
        spec::unit_of_sections(name, path, source, sections)->Ok_0.0.kind is Timer,
        triggers_are_given(
            timer_of_file(name, path, source, sections),
            ini::entries_or_none(sections, "Timer"@),
        ),
{
    let ws = lemma_of_file(name, path, source, sections);
    lemma_trigger_fold(path, ini::entries_or_none(sections, "Timer"@), ws);
}

/// Each switch of a timer, and the unit it starts, is the parsed value of the last
/// entry of `[Timer]` with that very name, and has its default where there is none.
pub proof fn timer_switches_are_those_given(
    name: NameView,
    path: Seq<char>,
    source: Seq<char>,
    sections: Seq<SectionView>,
)
    requires
        spec::unit_of_sections(name, path, source, sections) is Ok,
        name.kind is Timer,
    ensures
        spec::unit_of_sections(name, path, source, sections)->Ok_0.0.kind is Timer,
        switches_are_given(
            timer_of_file(name, path, source, sections),
            ini::entries_or_none(sections, "Timer"@),
        ),
{
    let ws = lemma_of_file(name, path, source, sections);
    lemma_switch_fold(path, ini::entries_or_none(sections, "Timer"@), ws);
}

} // verus!
