//! `[Timer]` section.

use crate::unit::calendar;
use crate::unit::calendar::{CalendarSpec, CalendarView};
use crate::unit::duration::{SdDuration, TimeSpan};
use crate::unit::name;
use crate::unit::name::{NameView, UnitName};
use vstd::prelude::*;

verus! {

/// `[Timer]` directives.
#[derive(Debug, PartialEq, Eq)]
pub struct TimerUnit {
    /// All `OnCalendar=` directives.
    pub on_calendar: Vec<CalendarSpec>,
    /// `OnActiveSec=` — relative to timer activation.
    pub on_active_sec: Option<SdDuration>,
    /// `OnBootSec=` — relative to system boot.
    pub on_boot_sec: Option<SdDuration>,
    /// `OnStartupSec=` — relative to manager start.
    pub on_startup_sec: Option<SdDuration>,
    /// `OnUnitActiveSec=` — relative to last activation of the linked unit.
    pub on_unit_active_sec: Option<SdDuration>,
    /// `OnUnitInactiveSec=` — relative to last deactivation.
    pub on_unit_inactive_sec: Option<SdDuration>,
    /// `OnClockChange=`.
    pub on_clock_change: bool,
    /// `OnTimezoneChange=`.
    pub on_timezone_change: bool,
    /// `AccuracySec=` (default 1min).
    pub accuracy_sec: Option<SdDuration>,
    /// `RandomizedDelaySec=`.
    pub randomized_delay_sec: Option<SdDuration>,
    /// `FixedRandomDelay=`.
    pub fixed_random_delay: bool,
    /// `Persistent=`.
    pub persistent: bool,
    /// `WakeSystem=`.
    pub wake_system: bool,
    /// `RemainAfterElapse=` (default true).
    pub remain_after_elapse: bool,
    /// `DeferReactivation=`.
    pub defer_reactivation: bool,
    /// `Unit=` — explicit linked unit. Default `<name>.service`.
    pub unit: Option<UnitName>,
}

/// A [`TimerUnit`] by its characters.
pub struct TimerView {
    pub on_calendar: Seq<CalendarView>,
    pub on_active_sec: Option<SdDuration>,
    pub on_boot_sec: Option<SdDuration>,
    pub on_startup_sec: Option<SdDuration>,
    pub on_unit_active_sec: Option<SdDuration>,
    pub on_unit_inactive_sec: Option<SdDuration>,
    pub on_clock_change: bool,
    pub on_timezone_change: bool,
    pub accuracy_sec: Option<SdDuration>,
    pub randomized_delay_sec: Option<SdDuration>,
    pub fixed_random_delay: bool,
    pub persistent: bool,
    pub wake_system: bool,
    pub remain_after_elapse: bool,
    pub defer_reactivation: bool,
    pub unit: Option<NameView>,
}

impl View for TimerUnit {
    type V = TimerView;

    open spec fn view(&self) -> TimerView {
        TimerView {
            on_calendar: calendar::calendars_view(self.on_calendar@),
            on_active_sec: self.on_active_sec,
            on_boot_sec: self.on_boot_sec,
            on_startup_sec: self.on_startup_sec,
            on_unit_active_sec: self.on_unit_active_sec,
            on_unit_inactive_sec: self.on_unit_inactive_sec,
            on_clock_change: self.on_clock_change,
            on_timezone_change: self.on_timezone_change,
            accuracy_sec: self.accuracy_sec,
            randomized_delay_sec: self.randomized_delay_sec,
            fixed_random_delay: self.fixed_random_delay,
            persistent: self.persistent,
            wake_system: self.wake_system,
            remain_after_elapse: self.remain_after_elapse,
            defer_reactivation: self.defer_reactivation,
            unit: name::opt_name(self.unit),
        }
    }
}

/// The section in which nothing is set.
pub open spec fn empty_timer() -> TimerView {
    TimerView {
        on_calendar: seq![],
        on_active_sec: None,
        on_boot_sec: None,
        on_startup_sec: None,
        on_unit_active_sec: None,
        on_unit_inactive_sec: None,
        on_clock_change: false,
        on_timezone_change: false,
        accuracy_sec: None,
        randomized_delay_sec: None,
        fixed_random_delay: false,
        persistent: false,
        wake_system: false,
        remain_after_elapse: false,
        defer_reactivation: false,
        unit: None,
    }
}

impl Default for TimerUnit {
    fn default() -> (r: Self)
        ensures
            r@ == empty_timer(),
    {
        let r = TimerUnit {
            on_calendar: Vec::new(),
            on_active_sec: None,
            on_boot_sec: None,
            on_startup_sec: None,
            on_unit_active_sec: None,
            on_unit_inactive_sec: None,
            on_clock_change: false,
            on_timezone_change: false,
            accuracy_sec: None,
            randomized_delay_sec: None,
            fixed_random_delay: false,
            persistent: false,
            wake_system: false,
            remain_after_elapse: false,
            defer_reactivation: false,
            unit: None,
        };
        proof {
            assert(r@.on_calendar =~= seq![]);
        }
        r
    }
}

impl TimerUnit {
    /// Default `AccuracySec=` per systemd: 1 minute.
    pub fn default_accuracy() -> (r: SdDuration)
        ensures
            r == SdDuration::Finite(TimeSpan { secs: 60, nanos: 0 }),
    {
        SdDuration::Finite(TimeSpan::from_secs(60))
    }
}

} // verus!
