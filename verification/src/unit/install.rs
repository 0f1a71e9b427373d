//! `[Install]` section.

use crate::text;
use crate::unit::name::NameView;
use crate::unit::name_set::NameSet;
use vstd::prelude::*;

verus! {

/// Contents of `[Install]`. Used by `systemlctl enable/disable` to manage
/// `~/.config/systemd/user/{wants,requires,upholds}/{target}/{unit}` symlinks.
#[derive(Debug, PartialEq, Eq)]
pub struct Install {
    /// `WantedBy=` — creates `<target>.wants/<unit>` symlinks.
    pub wanted_by: NameSet,
    /// `RequiredBy=`.
    pub required_by: NameSet,
    /// `UpheldBy=`.
    pub upheld_by: NameSet,
    /// `Also=` — units that should be enabled/disabled together.
    pub also: NameSet,
    /// `Alias=` — alternate names for this unit.
    pub alias: NameSet,
    /// `DefaultInstance=` — instance for templates when none is given.
    pub default_instance: Option<String>,
}

/// An [`Install`] by its characters.
pub struct InstallView {
    pub wanted_by: Seq<NameView>,
    pub required_by: Seq<NameView>,
    pub upheld_by: Seq<NameView>,
    pub also: Seq<NameView>,
    pub alias: Seq<NameView>,
    pub default_instance: Option<Seq<char>>,
}

impl View for Install {
    type V = InstallView;

    open spec fn view(&self) -> InstallView {
        InstallView {
            wanted_by: self.wanted_by@,
            required_by: self.required_by@,
            upheld_by: self.upheld_by@,
            also: self.also@,
            alias: self.alias@,
            default_instance: text::opt_text(self.default_instance),
        }
    }
}

/// The section in which nothing is set.
pub open spec fn empty_install() -> InstallView {
    InstallView {
        wanted_by: seq![],
        required_by: seq![],
        upheld_by: seq![],
        also: seq![],
        alias: seq![],
        default_instance: None,
    }
}

impl Default for Install {
    fn default() -> (r: Self)
        ensures
            r@ == empty_install(),
    {
        let r = Install {
            wanted_by: NameSet::new(),
            required_by: NameSet::new(),
            upheld_by: NameSet::new(),
            also: NameSet::new(),
            alias: NameSet::new(),
            default_instance: None,
        };
        proof {
        }
        r
    }
}

impl Clone for Install {
    fn clone(&self) -> (r: Self)
        ensures
            r@ == self@,
    {
        let default_instance: Option<String> = match &self.default_instance {
            Some(s) => Some(s.clone()),
            None => None,
        };
        Install {
            wanted_by: self.wanted_by.clone(),
            required_by: self.required_by.clone(),
            upheld_by: self.upheld_by.clone(),
            also: self.also.clone(),
            alias: self.alias.clone(),
            default_instance,
        }
    }
}

/// Whether nothing in the section drives enable/disable.
pub open spec fn installs_nothing(i: InstallView) -> bool {
    &&& i.wanted_by.len() == 0
    &&& i.required_by.len() == 0
    &&& i.upheld_by.len() == 0
    &&& i.also.len() == 0
    &&& i.alias.len() == 0
    &&& i.default_instance is None
}

impl Install {
    /// True if there is nothing in this section that drives enable/disable.
    pub fn is_empty(&self) -> (r: bool)
        ensures
            r == installs_nothing(self@),
    {
        self.wanted_by.is_empty() && self.required_by.is_empty() && self.upheld_by.is_empty()
            && self.also.is_empty() && self.alias.is_empty() && self.default_instance.is_none()
    }
}

} // verus!
