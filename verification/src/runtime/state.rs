//! Unit runtime states, as `org.freedesktop.systemd1.Unit` has them.

use crate::unit::name;
use crate::unit::name::{NameView, UnitName};
use vstd::prelude::*;

verus! {

/// `LoadState` property: where the unit data came from.
#[derive(Debug, Clone, Copy, PartialEq, Eq, Structural)]
pub enum LoadState {
    /// Unit is loaded successfully.
    Loaded,
    /// Unit could not be parsed.
    Error,
    /// Stub state before load.
    Stub,
    /// Masked: `/dev/null` symlink in config.
    Masked,
    /// File not found in any search path.
    NotFound,
    /// Loaded but merged into another unit.
    Merged,
    /// Bad unit file.
    BadSetting,
}

impl Default for LoadState {
    fn default() -> (r: Self)
        ensures
            r is Stub,
    {
        LoadState::Stub
    }
}

/// `ActiveState` property: top-level lifecycle.
#[derive(Debug, Clone, Copy, PartialEq, Eq, Structural)]
pub enum ActiveState {
    /// Inactive.
    Inactive,
    /// Activating (starting up).
    Activating,
    /// Active and running.
    Active,
    /// Deactivating (shutting down).
    Deactivating,
    /// Failed.
    Failed,
    /// Reloading.
    Reloading,
    /// Maintenance state (rare).
    Maintenance,
}

impl Default for ActiveState {
    fn default() -> (r: Self)
        ensures
            r is Inactive,
    {
        ActiveState::Inactive
    }
}

/// `SubState` property: per-unit-type fine state.
pub type SubState = String;

/// The name of a load state, in lower case.
pub open spec fn load_text(s: LoadState) -> Seq<char> {
    match s {
        LoadState::Loaded => "loaded"@,
        LoadState::Error => "error"@,
        LoadState::Stub => "stub"@,
        LoadState::Masked => "masked"@,
        LoadState::NotFound => "notfound"@,
        LoadState::Merged => "merged"@,
        LoadState::BadSetting => "badsetting"@,
    }
}

/// The name of an active state, in lower case.
pub open spec fn active_text(s: ActiveState) -> Seq<char> {
    match s {
        ActiveState::Inactive => "inactive"@,
        ActiveState::Activating => "activating"@,
        ActiveState::Active => "active"@,
        ActiveState::Deactivating => "deactivating"@,
        ActiveState::Failed => "failed"@,
        ActiveState::Reloading => "reloading"@,
        ActiveState::Maintenance => "maintenance"@,
    }
}

impl LoadState {
    /// The name of the state, in lower case.
    pub fn to_text(self) -> (r: &'static str)
        ensures
            r@ == load_text(self),
    {
        match self {
            LoadState::Loaded => "loaded",
            LoadState::Error => "error",
            LoadState::Stub => "stub",
            LoadState::Masked => "masked",
            LoadState::NotFound => "notfound",
            LoadState::Merged => "merged",
            LoadState::BadSetting => "badsetting",
        }
    }
}

impl ActiveState {
    /// The name of the state, in lower case.
    pub fn to_text(self) -> (r: &'static str)
        ensures
            r@ == active_text(self),
    {
        match self {
            ActiveState::Inactive => "inactive",
            ActiveState::Activating => "activating",
            ActiveState::Active => "active",
            ActiveState::Deactivating => "deactivating",
            ActiveState::Failed => "failed",
            ActiveState::Reloading => "reloading",
            ActiveState::Maintenance => "maintenance",
        }
    }
}

/// Top-level user-visible status.
#[derive(Debug)]
pub struct UnitStatus {
    /// Unit name.
    pub unit: Option<UnitName>,
    /// Load state.
    pub load: LoadState,
    /// Top-level state.
    pub active: ActiveState,
    /// Detailed sub-state.
    pub sub: SubState,
    /// Description.
    pub description: String,
}

/// A [`UnitStatus`] by its characters.
pub struct StatusView {
    pub unit: Option<NameView>,
    pub load: LoadState,
    pub active: ActiveState,
    pub sub: Seq<char>,
    pub description: Seq<char>,
}

impl View for UnitStatus {
    type V = StatusView;

    open spec fn view(&self) -> StatusView {
        StatusView {
            unit: name::opt_name(self.unit),
            load: self.load,
            active: self.active,
            sub: self.sub@,
            description: self.description@,
        }
    }
}

/// The views of a list of statuses.
pub open spec fn statuses_view(v: Seq<UnitStatus>) -> Seq<StatusView> {
    v.map_values(|s: UnitStatus| s@)
}

/// The status of nothing in particular.
pub open spec fn no_status() -> StatusView {
    StatusView {
        unit: None,
        load: LoadState::Stub,
        active: ActiveState::Inactive,
        sub: seq![],
        description: seq![],
    }
}

impl Default for UnitStatus {
    fn default() -> (r: Self)
        ensures
            r@ == no_status(),
    {
        let r = UnitStatus {
            unit: None,
            load: LoadState::Stub,
            active: ActiveState::Inactive,
            sub: String::new(),
            description: String::new(),
        };
        proof {
            assert(r@.sub =~= seq![]);
            assert(r@.description =~= seq![]);
        }
        r
    }
}

impl Clone for UnitStatus {
    fn clone(&self) -> (r: Self)
        ensures
            r@ == self@,
    {
        let unit: Option<UnitName> = match &self.unit {
            Some(n) => Some(n.clone()),
            None => None,
        };
        UnitStatus {
            unit,
            load: self.load,
            active: self.active,
            sub: self.sub.clone(),
            description: self.description.clone(),
        }
    }
}

} // verus!
