//! Manager events as D-Bus signals.

use crate::bus::object_path;
use crate::bus::object_path::unit_object_path;
use crate::deps::job::JobOutcome;
use crate::runtime::manager::{EventView, UnitEvent};
use crate::unit::name;
use vstd::prelude::*;

verus! {

/// A signal of `org.freedesktop.systemd1.Manager`.
#[derive(Debug, PartialEq, Eq)]
pub enum Signal {
    /// `UnitNew(name, path)`.
    UnitNew {
        /// The unit.
        id: String,
        /// Its object path.
        path: String,
    },
    /// `UnitRemoved(name, path)`.
    UnitRemoved {
        /// The unit.
        id: String,
        /// Its object path.
        path: String,
    },
    /// `JobNew(id, path, name)`.
    JobNew {
        /// The job.
        id: u32,
        /// The object path of its unit, which stands for the job's own.
        path: String,
        /// Its unit.
        unit: String,
    },
    /// `JobRemoved(id, path, name, result)`.
    JobRemoved {
        /// The job.
        id: u32,
        /// The object path of its unit, which stands for the job's own.
        path: String,
        /// Its unit.
        unit: String,
        /// How it ended.
        result: String,
    },
}

/// A [`Signal`] by its characters.
pub enum SignalView {
    UnitNew { id: Seq<char>, path: Seq<char> },
    UnitRemoved { id: Seq<char>, path: Seq<char> },
    JobNew { id: u32, path: Seq<char>, unit: Seq<char> },
    JobRemoved { id: u32, path: Seq<char>, unit: Seq<char>, result: Seq<char> },
}

impl View for Signal {
    type V = SignalView;

    open spec fn view(&self) -> SignalView {
        match *self {
            Signal::UnitNew { id, path } => SignalView::UnitNew { id: id@, path: path@ },
            Signal::UnitRemoved { id, path } => SignalView::UnitRemoved { id: id@, path: path@ },
            Signal::JobNew { id, path, unit } => SignalView::JobNew { id, path: path@, unit: unit@ },
            Signal::JobRemoved { id, path, unit, result } => SignalView::JobRemoved {
                id,
                path: path@,
                unit: unit@,
                result: result@,
            },
        }
    }
}

/// The name of a job's outcome.
pub open spec fn outcome_text(o: JobOutcome) -> Seq<char> {
    match o {
        JobOutcome::Done => "done"@,
        JobOutcome::Canceled => "canceled"@,
        JobOutcome::Timeout => "timeout"@,
        JobOutcome::Failed => "failed"@,
        JobOutcome::DependencyFailed => "dependency"@,
        JobOutcome::Skipped => "skipped"@,
    }
}

/// The name of a job's outcome.
pub fn job_outcome_str(o: JobOutcome) -> (r: &'static str)
    ensures
        r@ == outcome_text(o),
{
    match o {
        JobOutcome::Done => "done",
        JobOutcome::Canceled => "canceled",
        JobOutcome::Timeout => "timeout",
        JobOutcome::Failed => "failed",
        JobOutcome::DependencyFailed => "dependency",
        JobOutcome::Skipped => "skipped",
    }
}

/// The signal of an event. State transitions do not have one; clients listen
/// for changed properties of the unit instead.
pub open spec fn signal_of(e: EventView) -> Option<SignalView> {
    match e {
        EventView::UnitNew(n) => Some(
            SignalView::UnitNew { id: name::name_text(n), path: object_path::unit_path(n) },
        ),
        EventView::UnitRemoved(n) => Some(
            SignalView::UnitRemoved { id: name::name_text(n), path: object_path::unit_path(n) },
        ),
        EventView::JobNew { id, unit, .. } => Some(
            SignalView::JobNew {
                id: id.0,
                path: object_path::unit_path(unit),
                unit: name::name_text(unit),
            },
        ),
        EventView::JobRemoved { id, unit, outcome } => Some(
            SignalView::JobRemoved {
                id: id.0,
                path: object_path::unit_path(unit),
                unit: name::name_text(unit),
                result: outcome_text(outcome),
            },
        ),
        EventView::StateChanged { .. } => None,
    }
}

/// The signal of an event, if it has one.
pub fn forward(e: &UnitEvent) -> (r: Option<Signal>)
    ensures
        match r {
            Some(s) => signal_of(e@) == Some(s@),
            None => signal_of(e@) is None,
        },
{
    match e {
        UnitEvent::UnitNew(n) => Some(
            Signal::UnitNew { id: n.filename(), path: unit_object_path(n) },
        ),
        UnitEvent::UnitRemoved(n) => Some(
            Signal::UnitRemoved { id: n.filename(), path: unit_object_path(n) },
        ),
        UnitEvent::JobNew { id, unit, .. } => Some(
            Signal::JobNew { id: id.0, path: unit_object_path(unit), unit: unit.filename() },
        ),
        UnitEvent::JobRemoved { id, unit, outcome } => Some(
            Signal::JobRemoved {
                id: id.0,
                path: unit_object_path(unit),
                unit: unit.filename(),
                result: job_outcome_str(*outcome).to_owned(),
            },
        ),
        UnitEvent::StateChanged { .. } => None,
    }
}

} // verus!
