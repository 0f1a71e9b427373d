//! `[Unit] Condition*=` and `Assert*=` parsing.
//!
//! Conditions cause a unit to be skipped (no error) when not met; asserts
//! cause hard failure. The split is purely about reporting — parsing is the
//! same.

use crate::text;
use crate::text::{chars_of, debug_text, is_str, same, string_of, to_lower, trim};
use vstd::prelude::*;
use vstd::slice::slice_subrange;

verus! {

/// One condition. Negation is folded into the `negate` field.
#[derive(Debug, PartialEq, Eq)]
pub struct Condition {
    /// Kind / argument pair.
    pub check: ConditionCheck,
    /// `!`-prefix: invert the result.
    pub negate: bool,
    /// `|`-prefix: trigger-only; if set, the unit needs at least one such
    /// `|`-prefixed condition to be true (logical OR among triggers).
    pub trigger: bool,
}

/// All supported condition kinds. Linux-specific ones (KernelCommandLine,
/// SecurityHaveCapability, …) are recognised so they parse, but evaluation
/// returns a fixed result with a warning.
#[derive(Debug, PartialEq, Eq)]
pub enum ConditionCheck {
    /// `ConditionPathExists=`
    PathExists(String),
    /// `ConditionPathExistsGlob=`
    PathExistsGlob(String),
    /// `ConditionPathIsDirectory=`
    PathIsDirectory(String),
    /// `ConditionPathIsSymbolicLink=`
    PathIsSymbolicLink(String),
    /// `ConditionPathIsMountPoint=`
    PathIsMountPoint(String),
    /// `ConditionPathIsReadWrite=`
    PathIsReadWrite(String),
    /// `ConditionPathIsEncrypted=` (Linux-specific; always false on macOS).
    PathIsEncrypted(String),
    /// `ConditionDirectoryNotEmpty=`
    DirectoryNotEmpty(String),
    /// `ConditionFileNotEmpty=`
    FileNotEmpty(String),
    /// `ConditionFileIsExecutable=`
    FileIsExecutable(String),
    /// `ConditionUser=`
    User(String),
    /// `ConditionGroup=`
    Group(String),
    /// `ConditionHost=`
    Host(String),
    /// `ConditionArchitecture=`
    Architecture(String),
    /// `ConditionVirtualization=` (always "none" on macOS host).
    Virtualization(String),
    /// `ConditionEnvironment=`
    Environment(String),
    /// `ConditionFirstBoot=` (always false in user mode).
    FirstBoot(bool),
    /// `ConditionKernelCommandLine=` (Linux-only; always false).
    KernelCommandLine(String),
    /// `ConditionKernelVersion=` (Linux-only; always false).
    KernelVersion(String),
    /// `ConditionACPower=` — hooks into IOPSCopyPowerSourcesInfo on macOS.
    AcPower(bool),
    /// `ConditionNeedsUpdate=` (always false).
    NeedsUpdate(String),
    /// `ConditionMemory=` — `>=N` style.
    Memory(String),
    /// `ConditionCPUs=`
    Cpus(String),
    /// `ConditionControlGroupController=` (Linux-only; always false).
    ControlGroupController(String),
    /// `ConditionSecurity=` (Linux-only; always false).
    Security(String),
    /// `ConditionCapability=` (Linux-only; always false).
    Capability(String),
    /// Unknown directive — preserved for round-tripping.
    Unknown {
        /// Original key with `Condition`/`Assert` prefix stripped.
        key: String,
        /// Raw value.
        value: String,
    },
}

/// A [`ConditionCheck`] by its characters.
pub enum CheckView {
    PathExists(Seq<char>),
    PathExistsGlob(Seq<char>),
    PathIsDirectory(Seq<char>),
    PathIsSymbolicLink(Seq<char>),
    PathIsMountPoint(Seq<char>),
    PathIsReadWrite(Seq<char>),
    PathIsEncrypted(Seq<char>),
    DirectoryNotEmpty(Seq<char>),
    FileNotEmpty(Seq<char>),
    FileIsExecutable(Seq<char>),
    User(Seq<char>),
    Group(Seq<char>),
    Host(Seq<char>),
    Architecture(Seq<char>),
    Virtualization(Seq<char>),
    Environment(Seq<char>),
    FirstBoot(bool),
    KernelCommandLine(Seq<char>),
    KernelVersion(Seq<char>),
    AcPower(bool),
    NeedsUpdate(Seq<char>),
    Memory(Seq<char>),
    Cpus(Seq<char>),
    ControlGroupController(Seq<char>),
    Security(Seq<char>),
    Capability(Seq<char>),
    Unknown { key: Seq<char>, value: Seq<char> },
}

/// A [`Condition`] by its characters.
pub struct ConditionView {
    pub check: CheckView,
    pub negate: bool,
    pub trigger: bool,
}

impl View for ConditionCheck {
    type V = CheckView;

    open spec fn view(&self) -> CheckView {
        match *self {
            ConditionCheck::PathExists(s) => CheckView::PathExists(s@),
            ConditionCheck::PathExistsGlob(s) => CheckView::PathExistsGlob(s@),
            ConditionCheck::PathIsDirectory(s) => CheckView::PathIsDirectory(s@),
            ConditionCheck::PathIsSymbolicLink(s) => CheckView::PathIsSymbolicLink(s@),
            ConditionCheck::PathIsMountPoint(s) => CheckView::PathIsMountPoint(s@),
            ConditionCheck::PathIsReadWrite(s) => CheckView::PathIsReadWrite(s@),
            ConditionCheck::PathIsEncrypted(s) => CheckView::PathIsEncrypted(s@),
            ConditionCheck::DirectoryNotEmpty(s) => CheckView::DirectoryNotEmpty(s@),
            ConditionCheck::FileNotEmpty(s) => CheckView::FileNotEmpty(s@),
            ConditionCheck::FileIsExecutable(s) => CheckView::FileIsExecutable(s@),
            ConditionCheck::User(s) => CheckView::User(s@),
            ConditionCheck::Group(s) => CheckView::Group(s@),
            ConditionCheck::Host(s) => CheckView::Host(s@),
            ConditionCheck::Architecture(s) => CheckView::Architecture(s@),
            ConditionCheck::Virtualization(s) => CheckView::Virtualization(s@),
            ConditionCheck::Environment(s) => CheckView::Environment(s@),
            ConditionCheck::FirstBoot(s) => CheckView::FirstBoot(s),
            ConditionCheck::KernelCommandLine(s) => CheckView::KernelCommandLine(s@),
            ConditionCheck::KernelVersion(s) => CheckView::KernelVersion(s@),
            ConditionCheck::AcPower(s) => CheckView::AcPower(s),
            ConditionCheck::NeedsUpdate(s) => CheckView::NeedsUpdate(s@),
            ConditionCheck::Memory(s) => CheckView::Memory(s@),
            ConditionCheck::Cpus(s) => CheckView::Cpus(s@),
            ConditionCheck::ControlGroupController(s) => CheckView::ControlGroupController(s@),
            ConditionCheck::Security(s) => CheckView::Security(s@),
            ConditionCheck::Capability(s) => CheckView::Capability(s@),
            ConditionCheck::Unknown { key, value } => CheckView::Unknown {
                key: key@,
                value: value@,
            },
        }
    }
}

impl View for Condition {
    type V = ConditionView;

    open spec fn view(&self) -> ConditionView {
        ConditionView { check: self.check@, negate: self.negate, trigger: self.trigger }
    }
}

/// The views of a list of conditions.
pub open spec fn conditions_view(v: Seq<Condition>) -> Seq<ConditionView> {
    v.map_values(|c: Condition| c@)
}

// ---------------------------------------------------------------------
// Booleans
// ---------------------------------------------------------------------

/// The boolean that a word stands for, in either case.
pub open spec fn bool_of(s: Seq<char>) -> Option<bool> {
    let l = text::lowered(s);
    if l == "1"@ || l == "yes"@ || l == "true"@ || l == "on"@ {
        Some(true)
    } else if l == "0"@ || l == "no"@ || l == "false"@ || l == "off"@ {
        Some(false)
    } else {
        None
    }
}

/// Reads a boolean word.
pub fn parse_bool_chars(s: &[char]) -> (r: Option<bool>)
    ensures
        r == bool_of(s@),
{
    let low = to_lower(s);
    let l = low.as_slice();
    if is_str(l, "1") || is_str(l, "yes") || is_str(l, "true") || is_str(l, "on") {
        Some(true)
    } else if is_str(l, "0") || is_str(l, "no") || is_str(l, "false") || is_str(l, "off") {
        Some(false)
    } else {
        None
    }
}

/// Reads a boolean word.
pub fn parse_bool(s: &str) -> (r: Option<bool>)
    ensures
        r == bool_of(s@),
{
    let v = chars_of(s);
    parse_bool_chars(v.as_slice())
}

// ---------------------------------------------------------------------
// Parsing
// ---------------------------------------------------------------------

/// The `|` and `!` marks in front of a condition, and what follows them: each
/// `!` inverts, any `|` makes it a trigger, and white space may stand between.
pub open spec fn condition_marks(v: Seq<char>, negate: bool, trigger: bool) -> (
    bool,
    bool,
    Seq<char>,
)
    decreases v.len(),
{
    proof {
        text::lemma_trimmed_ends(v.skip(1));
        text::lemma_trimmed_ends(text::trimmed_start(v.skip(1)));
    }
    if v.len() > 0 && v[0] == '|' {
        condition_marks(text::trimmed(v.skip(1)), negate, true)
    } else if v.len() > 0 && v[0] == '!' {
        condition_marks(text::trimmed(v.skip(1)), !negate, trigger)
    } else {
        (negate, trigger, v)
    }
}

/// The check that a key and its value stand for.
pub open spec fn check_of(key: Seq<char>, v: Seq<char>) -> Result<CheckView, Seq<char>> {
    if key == "PathExists"@ {
        Ok(CheckView::PathExists(v))
    } else if key == "PathExistsGlob"@ {
        Ok(CheckView::PathExistsGlob(v))
    } else if key == "PathIsDirectory"@ {
        Ok(CheckView::PathIsDirectory(v))
    } else if key == "PathIsSymbolicLink"@ {
        Ok(CheckView::PathIsSymbolicLink(v))
    } else if key == "PathIsMountPoint"@ {
        Ok(CheckView::PathIsMountPoint(v))
    } else if key == "PathIsReadWrite"@ {
        Ok(CheckView::PathIsReadWrite(v))
    } else if key == "PathIsEncrypted"@ {
        Ok(CheckView::PathIsEncrypted(v))
    } else if key == "DirectoryNotEmpty"@ {
        Ok(CheckView::DirectoryNotEmpty(v))
    } else if key == "FileNotEmpty"@ {
        Ok(CheckView::FileNotEmpty(v))
    } else if key == "FileIsExecutable"@ {
        Ok(CheckView::FileIsExecutable(v))
    } else if key == "User"@ {
        Ok(CheckView::User(v))
    } else if key == "Group"@ {
        Ok(CheckView::Group(v))
    } else if key == "Host"@ {
        Ok(CheckView::Host(v))
    } else if key == "Architecture"@ {
        Ok(CheckView::Architecture(v))
    } else if key == "Virtualization"@ {
        Ok(CheckView::Virtualization(v))
    } else if key == "Environment"@ {
        Ok(CheckView::Environment(v))
    } else if key == "FirstBoot"@ {
        match bool_of(v) {
            Some(b) => Ok(CheckView::FirstBoot(b)),
            None => Err("ConditionFirstBoot expects a boolean, got "@ + text::debug_form(v)),
        }
    } else if key == "KernelCommandLine"@ {
        Ok(CheckView::KernelCommandLine(v))
    } else if key == "KernelVersion"@ {
        Ok(CheckView::KernelVersion(v))
    } else if key == "ACPower"@ {
        match bool_of(v) {
            Some(b) => Ok(CheckView::AcPower(b)),
            None => Err("ConditionACPower expects a boolean, got "@ + text::debug_form(v)),
        }
    } else if key == "NeedsUpdate"@ {
        Ok(CheckView::NeedsUpdate(v))
    } else if key == "Memory"@ {
        Ok(CheckView::Memory(v))
    } else if key == "CPUs"@ {
        Ok(CheckView::Cpus(v))
    } else if key == "ControlGroupController"@ {
        Ok(CheckView::ControlGroupController(v))
    } else if key == "Security"@ {
        Ok(CheckView::Security(v))
    } else if key == "Capability"@ {
        Ok(CheckView::Capability(v))
    } else {
        Ok(CheckView::Unknown { key, value: v })
    }
}

/// The condition that a key and its value stand for, or why they stand for none.
pub open spec fn condition_of(key: Seq<char>, value: Seq<char>) -> Result<
    ConditionView,
    Seq<char>,
> {
    let (negate, trigger, v) = condition_marks(text::trimmed(value), false, false);
    match check_of(key, v) {
        Ok(check) => Ok(ConditionView { check, negate, trigger }),
        Err(e) => Err(e),
    }
}

/// The view of a parsed condition.
pub open spec fn condition_result(r: Result<Condition, String>) -> Result<
    ConditionView,
    Seq<char>,
> {
    match r {
        Ok(c) => Ok(c@),
        Err(e) => Err(e@),
    }
}

/// The view of a parsed check.
pub open spec fn check_result(r: Result<ConditionCheck, String>) -> Result<CheckView, Seq<char>> {
    match r {
        Ok(c) => Ok(c@),
        Err(e) => Err(e@),
    }
}

fn strip_marks(value: &[char]) -> (r: (bool, bool, &[char]))
    ensures
        condition_marks(value@, false, false) == (r.0, r.1, r.2@),
{
    let mut negate: bool = false;
    let mut trigger: bool = false;
    let mut v: &[char] = value;
    while v.len() > 0 && (v[0] == '|' || v[0] == '!')
        invariant
            condition_marks(value@, false, false) == condition_marks(v@, negate, trigger),
        decreases v@.len(),
    {
        if v[0] == '|' {
            trigger = true;
        } else {
            negate = !negate;
        }
        proof {
            assert(v@.skip(1) =~= v@.subrange(1, v@.len() as int));
        }
        v = trim(slice_subrange(v, 1, v.len()));
    }
    (negate, trigger, v)
}

fn parse_check(key: &str, v: &[char]) -> (r: Result<ConditionCheck, String>)
    ensures
        check_result(r) == check_of(key@, v@),
{
    let s = string_of(v);
    if same(key, "PathExists") {
        Ok(ConditionCheck::PathExists(s))
    } else if same(key, "PathExistsGlob") {
        Ok(ConditionCheck::PathExistsGlob(s))
    } else if same(key, "PathIsDirectory") {
        Ok(ConditionCheck::PathIsDirectory(s))
    } else if same(key, "PathIsSymbolicLink") {
        Ok(ConditionCheck::PathIsSymbolicLink(s))
    } else if same(key, "PathIsMountPoint") {
        Ok(ConditionCheck::PathIsMountPoint(s))
    } else if same(key, "PathIsReadWrite") {
        Ok(ConditionCheck::PathIsReadWrite(s))
    } else if same(key, "PathIsEncrypted") {
        Ok(ConditionCheck::PathIsEncrypted(s))
    } else if same(key, "DirectoryNotEmpty") {
        Ok(ConditionCheck::DirectoryNotEmpty(s))
    } else if same(key, "FileNotEmpty") {
        Ok(ConditionCheck::FileNotEmpty(s))
    } else if same(key, "FileIsExecutable") {
        Ok(ConditionCheck::FileIsExecutable(s))
    } else if same(key, "User") {
        Ok(ConditionCheck::User(s))
    } else if same(key, "Group") {
        Ok(ConditionCheck::Group(s))
    } else if same(key, "Host") {
        Ok(ConditionCheck::Host(s))
    } else if same(key, "Architecture") {
        Ok(ConditionCheck::Architecture(s))
    } else if same(key, "Virtualization") {
        Ok(ConditionCheck::Virtualization(s))
    } else if same(key, "Environment") {
        Ok(ConditionCheck::Environment(s))
    } else if same(key, "FirstBoot") {
        match parse_bool_chars(v) {
            Some(b) => Ok(ConditionCheck::FirstBoot(b)),
            None => {
                let mut m = "ConditionFirstBoot expects a boolean, got ".to_owned();
                m.append(debug_text(s.as_str()).as_str());
                Err(m)
            },
        }
    } else if same(key, "KernelCommandLine") {
        Ok(ConditionCheck::KernelCommandLine(s))
    } else if same(key, "KernelVersion") {
        Ok(ConditionCheck::KernelVersion(s))
    } else if same(key, "ACPower") {
        match parse_bool_chars(v) {
            Some(b) => Ok(ConditionCheck::AcPower(b)),
            None => {
                let mut m = "ConditionACPower expects a boolean, got ".to_owned();
                m.append(debug_text(s.as_str()).as_str());
                Err(m)
            },
        }
    } else if same(key, "NeedsUpdate") {
        Ok(ConditionCheck::NeedsUpdate(s))
    } else if same(key, "Memory") {
        Ok(ConditionCheck::Memory(s))
    } else if same(key, "CPUs") {
        Ok(ConditionCheck::Cpus(s))
    } else if same(key, "ControlGroupController") {
        Ok(ConditionCheck::ControlGroupController(s))
    } else if same(key, "Security") {
        Ok(ConditionCheck::Security(s))
    } else if same(key, "Capability") {
        Ok(ConditionCheck::Capability(s))
    } else {
        Ok(ConditionCheck::Unknown { key: key.to_owned(), value: s })
    }
}

impl Condition {
    /// Parse one `ConditionFoo=` or `AssertFoo=` value.
    ///
    /// `key` should be the directive key with the leading `Condition` or
    /// `Assert` already stripped (e.g. `PathExists`).
    ///
    /// Errors on malformed boolean values (e.g. `ConditionFirstBoot=maybe`).
    /// Unknown condition keys are *not* an error — they round-trip as
    /// `ConditionCheck::Unknown` for forward compatibility, matching upstream
    /// systemd's tolerance for newer conditions on older parsers.
    pub fn parse(key: &str, value: &str) -> (r: Result<Self, String>)
        ensures
            condition_result(r) == condition_of(key@, value@),
    {
        let chars = chars_of(value);
        let (negate, trigger, v) = strip_marks(trim(chars.as_slice()));
        match parse_check(key, v) {
            Ok(check) => Ok(Condition { check, negate, trigger }),
            Err(e) => Err(e),
        }
    }
}

/// All conditions/asserts on a unit.
#[derive(Debug, PartialEq, Eq)]
pub struct Conditions {
    /// `ConditionXxx=` — skip the unit if not satisfied.
    pub conditions: Vec<Condition>,
    /// `AssertXxx=` — fail the unit if not satisfied.
    pub asserts: Vec<Condition>,
}

/// [`Conditions`] by their characters.
pub struct ConditionsView {
    pub conditions: Seq<ConditionView>,
    pub asserts: Seq<ConditionView>,
}

impl View for Conditions {
    type V = ConditionsView;

    open spec fn view(&self) -> ConditionsView {
        ConditionsView {
            conditions: conditions_view(self.conditions@),
            asserts: conditions_view(self.asserts@),
        }
    }
}

/// No conditions.
pub open spec fn no_conditions() -> ConditionsView {
    ConditionsView { conditions: seq![], asserts: seq![] }
}

impl Default for Conditions {
    fn default() -> (r: Self)
        ensures
            r@ == no_conditions(),
    {
        let r = Conditions { conditions: Vec::new(), asserts: Vec::new() };
        proof {
            assert(r@.conditions =~= seq![]);
            assert(r@.asserts =~= seq![]);
        }
        r
    }
}

} // verus!
