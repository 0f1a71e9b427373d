//! `[Path]` section.

use crate::unit::duration::SdDuration;
use crate::unit::name;
use crate::unit::name::{NameView, UnitName};
use vstd::prelude::*;

verus! {

/// One path-watch directive.
#[derive(Debug, PartialEq, Eq)]
pub enum PathWatch {
    /// `PathExists=` — fires once when path appears.
    Exists(String),
    /// `PathExistsGlob=` — fires when any glob-matching path exists.
    ExistsGlob(String),
    /// `PathChanged=` — close-after-write on file (or any change in dir).
    Changed(String),
    /// `PathModified=` — like Changed but also write-while-open.
    Modified(String),
    /// `DirectoryNotEmpty=` — fires while directory has entries.
    DirectoryNotEmpty(String),
}

/// A [`PathWatch`] by its characters.
pub enum WatchView {
    Exists(Seq<char>),
    ExistsGlob(Seq<char>),
    Changed(Seq<char>),
    Modified(Seq<char>),
    DirectoryNotEmpty(Seq<char>),
}

impl View for PathWatch {
    type V = WatchView;

    open spec fn view(&self) -> WatchView {
        match *self {
            PathWatch::Exists(s) => WatchView::Exists(s@),
            PathWatch::ExistsGlob(s) => WatchView::ExistsGlob(s@),
            PathWatch::Changed(s) => WatchView::Changed(s@),
            PathWatch::Modified(s) => WatchView::Modified(s@),
            PathWatch::DirectoryNotEmpty(s) => WatchView::DirectoryNotEmpty(s@),
        }
    }
}

/// The views of a list of watches.
pub open spec fn watches_view(v: Seq<PathWatch>) -> Seq<WatchView> {
    v.map_values(|w: PathWatch| w@)
}

/// The path or pattern that a watch is about.
pub open spec fn watched_path(w: WatchView) -> Seq<char> {
    match w {
        WatchView::Exists(s) => s,
        WatchView::ExistsGlob(s) => s,
        WatchView::Changed(s) => s,
        WatchView::Modified(s) => s,
        WatchView::DirectoryNotEmpty(s) => s,
    }
}

impl PathWatch {
    /// The watched path, regardless of variant. (For globs, the pattern.)
    pub fn path(&self) -> (r: String)
        ensures
            r@ == watched_path(self@),
    {
        match self {
            PathWatch::Exists(p) => p.clone(),
            PathWatch::Changed(p) => p.clone(),
            PathWatch::Modified(p) => p.clone(),
            PathWatch::DirectoryNotEmpty(p) => p.clone(),
            PathWatch::ExistsGlob(g) => g.clone(),
        }
    }
}

/// `[Path]` directives.
#[derive(Debug, PartialEq, Eq)]
pub struct PathUnit {
    /// All `Path*=` and `DirectoryNotEmpty=` directives in declaration order.
    pub watches: Vec<PathWatch>,
    /// `Unit=` — unit to start when triggered. Defaults to
    /// `<this-name>.service`.
    pub unit: Option<UnitName>,
    /// `MakeDirectory=`.
    pub make_directory: bool,
    /// `DirectoryMode=` — octal.
    pub directory_mode: Option<u32>,
    /// `TriggerLimitIntervalSec=`.
    pub trigger_limit_interval_sec: Option<SdDuration>,
    /// `TriggerLimitBurst=`.
    pub trigger_limit_burst: Option<u32>,
}

/// A [`PathUnit`] by its characters.
pub struct PathView {
    pub watches: Seq<WatchView>,
    pub unit: Option<NameView>,
    pub make_directory: bool,
    pub directory_mode: Option<u32>,
    pub trigger_limit_interval_sec: Option<SdDuration>,
    pub trigger_limit_burst: Option<u32>,
}

impl View for PathUnit {
    type V = PathView;

    open spec fn view(&self) -> PathView {
        PathView {
            watches: watches_view(self.watches@),
            unit: name::opt_name(self.unit),
            make_directory: self.make_directory,
            directory_mode: self.directory_mode,
            trigger_limit_interval_sec: self.trigger_limit_interval_sec,
            trigger_limit_burst: self.trigger_limit_burst,
        }
    }
}

/// The section in which nothing is set.
pub open spec fn empty_path() -> PathView {
    PathView {
        watches: seq![],
        unit: None,
        make_directory: false,
        directory_mode: None,
        trigger_limit_interval_sec: None,
        trigger_limit_burst: None,
    }
}

impl Default for PathUnit {
    fn default() -> (r: Self)
        ensures
            r@ == empty_path(),
    {
        let r = PathUnit {
            watches: Vec::new(),
            unit: None,
            make_directory: false,
            directory_mode: None,
            trigger_limit_interval_sec: None,
            trigger_limit_burst: None,
        };
        proof {
            assert(r@.watches =~= seq![]);
        }
        r
    }
}

} // verus!
