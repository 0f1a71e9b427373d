//! `[Install]` symlink management — `enable`/`disable`/`mask`/`unmask` and
//! `is-enabled` introspection.
//!
//! Layout (mirrors systemd-stable user-mode):
//! ```text
//! $XDG_CONFIG_HOME/systemd/user/
//!     <wanted-target>.wants/<unit>     -> link to fragment
//!     <required-target>.requires/<unit> -> link to fragment
//!     <unit>                            -> /dev/null  (mask)
//! ```
//!
//! The functions here decide which links to make and to remove; the caller
//! looks at the file system and changes it.

use crate::paths;
use crate::paths::{join, parent};
use crate::text;
use crate::text::{chars_of, ends_with, same};
use crate::unit::install;
use crate::unit::install::{Install, InstallView};
use crate::unit::load;
use crate::unit::name;
use crate::unit::name::{NameView, UnitName};
use crate::unit::name_set::NameSet;
use crate::unit::search;
use crate::unit::search::user_config_dir;
use vstd::prelude::*;

verus! {

/// One change that an enable or disable operation made: `(type, target,
/// source)`.
#[derive(Debug, PartialEq, Eq)]
pub struct UnitFileChange {
    /// `"symlink"` or `"unlink"`.
    pub change_type: String,
    /// The path of the link.
    pub target: String,
    /// What it points to (for symlink), or empty.
    pub source: String,
}

/// A [`UnitFileChange`] by its characters.
pub struct ChangeView {
    pub change_type: Seq<char>,
    pub target: Seq<char>,
    pub source: Seq<char>,
}

impl View for UnitFileChange {
    type V = ChangeView;

    open spec fn view(&self) -> ChangeView {
        ChangeView { change_type: self.change_type@, target: self.target@, source: self.source@ }
    }
}

/// The views of a list of changes.
pub open spec fn changes_view(v: Seq<UnitFileChange>) -> Seq<ChangeView> {
    v.map_values(|c: UnitFileChange| c@)
}

/// Result of an enable/disable/mask/unmask op.
#[derive(Debug, PartialEq, Eq)]
pub struct EnableChanges {
    /// Whether the unit files declared `[Install]` info.
    pub carries_install_info: bool,
    /// File-system level changes performed.
    pub changes: Vec<UnitFileChange>,
}

/// An [`EnableChanges`] by its characters.
#[verifier::ext_equal]
pub struct EnableView {
    pub carries_install_info: bool,
    pub changes: Seq<ChangeView>,
}

impl View for EnableChanges {
    type V = EnableView;

    open spec fn view(&self) -> EnableView {
        EnableView {
            carries_install_info: self.carries_install_info,
            changes: changes_view(self.changes@),
        }
    }
}

/// Nothing changed.
pub open spec fn no_changes() -> EnableView {
    EnableView { carries_install_info: false, changes: seq![] }
}

impl Default for EnableChanges {
    fn default() -> (r: Self)
        ensures
            r@ == no_changes(),
    {
        let r = EnableChanges { carries_install_info: false, changes: Vec::new() };
        proof {
            assert(r@ =~= no_changes());
        }
        r
    }
}

impl EnableChanges {
    fn record(&mut self, change_type: &str, target: &str, source: &str)
        ensures
            final(self)@ == (EnableView {
                changes: old(self)@.changes.push(
                    ChangeView { change_type: change_type@, target: target@, source: source@ },
                ),
                ..old(self)@
            }),
    {
        self.changes.push(
            UnitFileChange {
                change_type: change_type.to_owned(),
                target: target.to_owned(),
                source: source.to_owned(),
            },
        );
        proof {
            assert(changes_view(self.changes@) =~= old(self)@.changes.push(
                ChangeView { change_type: change_type@, target: target@, source: source@ },
            ));
        }
    }
}

// ---------------------------------------------------------------------
// Directories
// ---------------------------------------------------------------------

/// Where on disk `enable` drops its symlinks: `$XDG_CONFIG_HOME/systemd/user`,
/// else `~/.config/systemd/user`, given the variable and the home directory.
pub fn config_dir(xdg_config_home: &Option<String>, home: &Option<String>) -> (r: Result<
    String,
    String,
>)
    ensures
        match r {
            Ok(d) => search::below(
                search::xdg_dir(text::opt_text(*xdg_config_home), text::opt_text(*home), ".config"@),
                "systemd/user"@,
            ) == Some(d@),
            Err(e) => *xdg_config_home is None && *home is None && e@
                == "no XDG_CONFIG_HOME or HOME for symlinks"@,
        },
{
    match user_config_dir(xdg_config_home, home) {
        Some(d) => Ok(d),
        None => Err("no XDG_CONFIG_HOME or HOME for symlinks".to_owned()),
    }
}

/// The directory that an operation works in: that of the runtime tree where
/// it is asked for and present, else the config directory.
pub open spec fn base_of(
    runtime: bool,
    rt: Option<Seq<char>>,
    cfg: Result<Seq<char>, Seq<char>>,
) -> Result<Seq<char>, Seq<char>> {
    match rt {
        Some(d) if runtime => Ok(paths::joined(d, "systemd/user"@)),
        _ => cfg,
    }
}

/// The characters of a result of texts.
pub open spec fn texts_result(r: Result<String, String>) -> Result<Seq<char>, Seq<char>> {
    match r {
        Ok(s) => Ok(s@),
        Err(e) => Err(e@),
    }
}

/// The directory that an operation works in, given `XDG_RUNTIME_DIR` and the
/// config directory.
pub fn base_dir(runtime: bool, runtime_dir: &Option<String>, config: Result<String, String>) -> (r:
    Result<String, String>)
    ensures
        texts_result(r) == base_of(runtime, text::opt_text(*runtime_dir), texts_result(config)),
{
    match runtime_dir {
        Some(d) if runtime => Ok(join(d.as_str(), "systemd/user")),
        _ => config,
    }
}

/// The first of the directories that holds the unit's own file, given in which
/// it does.
pub fn locate_fragment(n: &UnitName, base_dirs: &Vec<String>, is_file: &Vec<bool>) -> (r: Option<
    String,
>)
    requires
        is_file@.len() == base_dirs@.len(),
    ensures
        match r {
            Some(p) => load::first_true(is_file@) < is_file@.len() && p@ == load::in_each(
                text::texts(base_dirs@),
                name::name_text(n@),
            )[load::first_true(is_file@)],
            None => load::first_true(is_file@) == is_file@.len(),
        },
{
    let mut i: usize = 0;
    proof {
        assert(is_file@.skip(0) =~= is_file@);
    }
    while i < is_file.len() && !is_file[i]
        invariant
            i <= is_file.len(),
            load::first_true(is_file@) == i + load::first_true(is_file@.skip(i as int)),
        decreases is_file.len() - i,
    {
        proof {
            assert(is_file@.skip(i as int).skip(1) =~= is_file@.skip(i + 1));
        }
        i = i + 1;
    }
    if i < is_file.len() {
        proof {
            assert(text::texts(base_dirs@)[i as int] == base_dirs@[i as int]@);
        }
        Some(join(base_dirs[i].as_str(), n.filename().as_str()))
    } else {
        None
    }
}

// ---------------------------------------------------------------------
// Enable
// ---------------------------------------------------------------------

/// A symlink that an operation asks for.
#[derive(Debug, PartialEq, Eq)]
pub struct Link {
    /// The directory to make before it.
    pub dir: String,
    /// The file name of the link.
    pub link_name: String,
    /// What it points to.
    pub target: String,
}

/// A [`Link`] by its characters.
pub struct LinkView {
    pub dir: Seq<char>,
    pub link_name: Seq<char>,
    pub target: Seq<char>,
}

impl View for Link {
    type V = LinkView;

    open spec fn view(&self) -> LinkView {
        LinkView { dir: self.dir@, link_name: self.link_name@, target: self.target@ }
    }
}

/// The views of a list of links.
pub open spec fn links_view(v: Seq<Link>) -> Seq<LinkView> {
    v.map_values(|l: Link| l@)
}

/// The path of a link.
pub open spec fn link_path(l: LinkView) -> Seq<char> {
    paths::joined(l.dir, l.link_name)
}

/// The links in the `<target><ending>` directories of some targets.
pub open spec fn target_links(
    base: Seq<char>,
    targets: Seq<NameView>,
    ending: Seq<char>,
    file: Seq<char>,
    source: Seq<char>,
) -> Seq<LinkView> {
    targets.map_values(
        |t: NameView|
            LinkView {
                dir: paths::joined(base, name::name_text(t) + ending),
                link_name: file,
                target: source,
            },
    )
}

/// The links of some aliases.
pub open spec fn alias_links(base: Seq<char>, aliases: Seq<NameView>, source: Seq<char>) -> Seq<
    LinkView,
> {
    aliases.map_values(
        |a: NameView| LinkView { dir: base, link_name: name::name_text(a), target: source },
    )
}

/// The links that enabling a unit asks for.
pub open spec fn enable_links(
    n: NameView,
    i: InstallView,
    base: Seq<char>,
    source: Seq<char>,
) -> Seq<LinkView> {
    let file = name::name_text(n);
    target_links(base, i.wanted_by, ".wants"@, file, source) + target_links(
        base,
        i.required_by,
        ".requires"@,
        file,
        source,
    ) + target_links(base, i.upheld_by, ".upholds"@, file, source) + alias_links(
        base,
        i.alias,
        source,
    )
}

fn push_target_links(
    out: &mut Vec<Link>,
    base: &str,
    targets: &NameSet,
    ending: &str,
    file: &str,
    source: &str,
)
    ensures
        links_view(final(out)@) == links_view(old(out)@) + target_links(
            base@,
            targets@,
            ending@,
            file@,
            source@,
        ),
{
    let mut i: usize = 0;
    let ghost all = target_links(base@, targets@, ending@, file@, source@);
    proof {
        assert(links_view(out@) + all.take(0) =~= links_view(out@));
    }
    while i < targets.len()
        invariant
            i <= targets@.len(),
            all == target_links(base@, targets@, ending@, file@, source@),
            links_view(out@) =~= links_view(old(out)@) + all.take(i as int),
        decreases targets@.len() - i,
    {
        let ghost before = out@;
        let mut d = targets.get(i).filename();
        d.append(ending);
        out.push(
            Link {
                dir: join(base, d.as_str()),
                link_name: file.to_owned(),
                target: source.to_owned(),
            },
        );
        proof {
            assert(links_view(out@) =~= links_view(before).push(all[i as int]));
        }
        i = i + 1;
    }
    proof {
        assert(all.take(all.len() as int) =~= all);
    }
}

fn push_alias_links(out: &mut Vec<Link>, base: &str, aliases: &NameSet, source: &str)
    ensures
        links_view(final(out)@) == links_view(old(out)@) + alias_links(base@, aliases@, source@),
{
    let mut i: usize = 0;
    let ghost all = alias_links(base@, aliases@, source@);
    proof {
        assert(links_view(out@) + all.take(0) =~= links_view(out@));
    }
    while i < aliases.len()
        invariant
            i <= aliases@.len(),
            all == alias_links(base@, aliases@, source@),
            links_view(out@) =~= links_view(old(out)@) + all.take(i as int),
        decreases aliases@.len() - i,
    {
        let ghost before = out@;
        out.push(
            Link {
                dir: base.to_owned(),
                link_name: aliases.get(i).filename(),
                target: source.to_owned(),
            },
        );
        proof {
            assert(links_view(out@) =~= links_view(before).push(all[i as int]));
        }
        i = i + 1;
    }
    proof {
        assert(all.take(all.len() as int) =~= all);
    }
}

/// What links to a unit point to: its fragment, or the bare filename where it
/// has none yet, so that a later `daemon-reload` resolves it.
pub open spec fn source_of(n: NameView, fragment: Option<Seq<char>>) -> Seq<char> {
    match fragment {
        Some(p) => p,
        None => name::name_text(n),
    }
}

/// The `.wants/`, `.requires/` and `.upholds/` symlinks for the given unit's
/// `[Install]` block, and those of its aliases, given the unit's fragment.
pub fn enable(n: &UnitName, i: &Install, base: &str, fragment: &Option<String>) -> (r: Vec<Link>)
    ensures
        links_view(r@) == enable_links(n@, i@, base@, source_of(n@, text::opt_text(*fragment))),
{
    let file = n.filename();
    let source = match fragment {
        Some(p) => p.clone(),
        None => n.filename(),
    };
    let mut out: Vec<Link> = Vec::new();
    push_target_links(&mut out, base, &i.wanted_by, ".wants", file.as_str(), source.as_str());
    push_target_links(&mut out, base, &i.required_by, ".requires", file.as_str(), source.as_str());
    push_target_links(&mut out, base, &i.upheld_by, ".upholds", file.as_str(), source.as_str());
    push_alias_links(&mut out, base, &i.alias, source.as_str());
    proof {
        assert(links_view(out@) =~= enable_links(
            n@,
            i@,
            base@,
            source_of(n@, text::opt_text(*fragment)),
        ));
    }
    out
}

/// Whether a unit carries `[Install]` info, and the links that enabling it asks
/// for: those of [`enable`] where it does, else none.
pub fn enable_plan(n: &UnitName, i: &Install, base: &str, fragment: &Option<String>) -> (r: (
    bool,
    Vec<Link>,
))
    ensures
        r.0 == !install::installs_nothing(i@),
        links_view(r.1@) == if r.0 {
            enable_links(n@, i@, base@, source_of(n@, text::opt_text(*fragment)))
        } else {
            Seq::<LinkView>::empty()
        },
{
    if i.is_empty() {
        let none: Vec<Link> = Vec::new();
        proof {
            assert(links_view(none@) =~= Seq::<LinkView>::empty());
        }
        (false, none)
    } else {
        (true, enable(n, i, base, fragment))
    }
}

/// What to do for a link that is asked for.
#[derive(Debug, Clone, Copy, PartialEq, Eq, Structural)]
pub enum LinkAction {
    /// There is something in its place, which stays.
    Keep,
    /// Make it.
    Create,
    /// Remove what is in its place, then make it.
    Replace,
}

/// What to do for a link: nothing where something is in its place, unless
/// forced.
pub open spec fn link_action(occupied: bool, force: bool) -> LinkAction {
    if !occupied {
        LinkAction::Create
    } else if force {
        LinkAction::Replace
    } else {
        LinkAction::Keep
    }
}

/// The change that making a link is.
pub open spec fn linked(l: LinkView) -> ChangeView {
    ChangeView { change_type: "symlink"@, target: link_path(l), source: l.target }
}

/// The changes after a link that was asked for.
pub open spec fn after_link(c: EnableView, l: LinkView, occupied: bool, force: bool) -> EnableView {
    if link_action(occupied, force) is Keep {
        c
    } else {
        EnableView { changes: c.changes.push(linked(l)), ..c }
    }
}

/// Decides what to do for a link, given whether something is in its place, and
/// records the change.
pub fn link_one(l: &Link, occupied: bool, force: bool, out: &mut EnableChanges) -> (r: LinkAction)
    ensures
        r == link_action(occupied, force),
        final(out)@ == after_link(old(out)@, l@, occupied, force),
{
    if occupied && !force {
        return LinkAction::Keep;
    }
    let path = join(l.dir.as_str(), l.link_name.as_str());
    out.record("symlink", path.as_str(), l.target.as_str());
    if occupied {
        LinkAction::Replace
    } else {
        LinkAction::Create
    }
}

/// The paths in use and the changes after links that were asked for one after
/// the other, given those before.
pub open spec fn after_links(
    taken: Set<Seq<char>>,
    c: EnableView,
    ls: Seq<LinkView>,
    force: bool,
) -> (Set<Seq<char>>, EnableView)
    decreases ls.len(),
{
    if ls.len() == 0 {
        (taken, c)
    } else {
        let (t, d) = after_links(taken, c, ls.drop_last(), force);
        let path = link_path(ls.last());
        (t.insert(path), after_link(d, ls.last(), t.contains(path), force))
    }
}

proof fn lemma_links_taken(taken: Set<Seq<char>>, c: EnableView, ls: Seq<LinkView>, force: bool)
    ensures
        taken.subset_of(after_links(taken, c, ls, force).0),
        forall|k: int|
            0 <= k < ls.len() ==> after_links(taken, c, ls, force).0.contains(
                link_path(#[trigger] ls[k]),
            ),
    decreases ls.len(),
{
    if ls.len() > 0 {
        let rest = ls.drop_last();
        lemma_links_taken(taken, c, rest, force);
        assert forall|k: int| 0 <= k < ls.len() implies after_links(
            taken,
            c,
            ls,
            force,
        ).0.contains(link_path(#[trigger] ls[k])) by {
            if k < rest.len() {
                assert(rest[k] == ls[k]);
            }
        }
    }
}

proof fn lemma_links_kept(taken: Set<Seq<char>>, c: EnableView, ls: Seq<LinkView>)
    requires
        forall|k: int| 0 <= k < ls.len() ==> taken.contains(link_path(#[trigger] ls[k])),
    ensures
        after_links(taken, c, ls, false) == (taken, c),
    decreases ls.len(),
{
    if ls.len() > 0 {
        let rest = ls.drop_last();
        assert forall|k: int| 0 <= k < rest.len() implies taken.contains(
            link_path(#[trigger] rest[k]),
        ) by {
            assert(rest[k] == ls[k]);
        }
        lemma_links_kept(taken, c, rest);
        assert(taken.contains(link_path(ls[ls.len() - 1])));
        assert(taken.insert(link_path(ls.last())) =~= taken);
    }
}

/// Enabling a unit leaves something in the place of every link that it asks for,
/// and enabling it again changes nothing, unless forced.
pub proof fn enabling_twice_changes_nothing(
    n: NameView,
    i: InstallView,
    base: Seq<char>,
    source: Seq<char>,
    taken: Set<Seq<char>>,
    force: bool,
    first: EnableView,
    second: EnableView,
)
    ensures
        ({
            let ls = enable_links(n, i, base, source);
            let (t, _) = after_links(taken, first, ls, force);
            &&& forall|k: int| 0 <= k < ls.len() ==> t.contains(link_path(#[trigger] ls[k]))
            &&& after_links(t, second, ls, false) == (t, second)
        }),
{
    let ls = enable_links(n, i, base, source);
    lemma_links_taken(taken, first, ls, force);
    lemma_links_kept(after_links(taken, first, ls, force).0, second, ls);
}

// ---------------------------------------------------------------------
// Disable
// ---------------------------------------------------------------------

/// Whether a directory of this name holds the links of a target.
pub open spec fn is_link_dir(d: Seq<char>) -> bool {
    text::finishes_with(d, ".wants"@) || text::finishes_with(d, ".requires"@)
        || text::finishes_with(d, ".upholds"@)
}

/// Whether a directory of this name holds the links of a target.
pub fn holds_links(d: &str) -> (r: bool)
    ensures
        r == is_link_dir(d@),
{
    let v = chars_of(d);
    let c = v.as_slice();
    ends_with(c, ".wants") || ends_with(c, ".requires") || ends_with(c, ".upholds")
}

/// An entry of the directory with the links.
#[derive(Debug, PartialEq, Eq)]
pub struct BaseEntry {
    /// Its file name.
    pub file_name: String,
    /// Whether it is a directory.
    pub is_dir: bool,
    /// Whether it is itself a symlink.
    pub is_symlink: bool,
    /// Whether it is a directory with something under the unit's file name.
    pub holds_unit: bool,
}

/// A [`BaseEntry`] by its characters.
pub struct BaseEntryView {
    pub file_name: Seq<char>,
    pub is_dir: bool,
    pub is_symlink: bool,
    pub holds_unit: bool,
}

impl View for BaseEntry {
    type V = BaseEntryView;

    open spec fn view(&self) -> BaseEntryView {
        BaseEntryView {
            file_name: self.file_name@,
            is_dir: self.is_dir,
            is_symlink: self.is_symlink,
            holds_unit: self.holds_unit,
        }
    }
}

/// The views of a list of entries.
pub open spec fn base_entries_view(v: Seq<BaseEntry>) -> Seq<BaseEntryView> {
    v.map_values(|e: BaseEntry| e@)
}

/// The link of a unit that an entry stands for: the unit's name in a
/// directory of links, or the unit's own name as a symlink.
pub open spec fn unit_link(base: Seq<char>, file: Seq<char>, e: BaseEntryView) -> Option<Seq<char>> {
    if e.is_dir {
        if is_link_dir(e.file_name) && e.holds_unit {
            Some(paths::joined(paths::joined(base, e.file_name), file))
        } else {
            None
        }
    } else if e.is_symlink && e.file_name == file {
        Some(paths::joined(base, e.file_name))
    } else {
        None
    }
}

/// The change that removing a link is.
pub open spec fn unlinked(path: Seq<char>, source: Seq<char>) -> ChangeView {
    ChangeView { change_type: "unlink"@, target: path, source }
}

/// The links that disabling a unit removes.
pub open spec fn disable_changes(
    base: Seq<char>,
    file: Seq<char>,
    es: Seq<BaseEntryView>,
) -> Seq<ChangeView>
    decreases es.len(),
{
    if es.len() == 0 {
        seq![]
    } else {
        let before = disable_changes(base, file, es.drop_last());
        match unit_link(base, file, es.last()) {
            Some(p) => before.push(unlinked(p, seq![])),
            None => before,
        }
    }
}

/// Removes all `[Install]` symlinks for the given unit, given the entries of
/// the directory with the links: every change is a link to remove.
pub fn disable(n: &UnitName, base: &str, entries: &Vec<BaseEntry>) -> (r: EnableChanges)
    ensures
        r@ == (EnableView {
            carries_install_info: false,
            changes: disable_changes(base@, name::name_text(n@), base_entries_view(entries@)),
        }),
{
    let file = n.filename();
    let mut out = EnableChanges::default();
    let ghost all = base_entries_view(entries@);
    let mut i: usize = 0;
    while i < entries.len()
        invariant
            i <= entries.len(),
            all == base_entries_view(entries@),
            file@ == name::name_text(n@),
            out@ == (EnableView {
                carries_install_info: false,
                changes: disable_changes(base@, file@, all.take(i as int)),
            }),
        decreases entries.len() - i,
    {
        proof {
            assert(all.take(i + 1).drop_last() =~= all.take(i as int));
            assert(all.take(i + 1).last() == entries@[i as int]@);
        }
        let e = &entries[i];
        if e.is_dir {
            if holds_links(e.file_name.as_str()) && e.holds_unit {
                let dir = join(base, e.file_name.as_str());
                out.record("unlink", join(dir.as_str(), file.as_str()).as_str(), "");
                proof {
                    reveal_strlit("");
                    assert(""@ =~= seq![]);
                }
            }
        } else if e.is_symlink && same(e.file_name.as_str(), file.as_str()) {
            out.record("unlink", join(base, e.file_name.as_str()).as_str(), "");
            proof {
                reveal_strlit("");
                assert(""@ =~= seq![]);
            }
        }
        i = i + 1;
    }
    proof {
        assert(all.take(all.len() as int) =~= all);
    }
    out
}

// ---------------------------------------------------------------------
// Mask
// ---------------------------------------------------------------------

/// The link that masks a unit.
pub open spec fn mask_link(n: NameView, base: Seq<char>) -> LinkView {
    LinkView { dir: base, link_name: name::name_text(n), target: "/dev/null"@ }
}

/// `mask` — the link from `<unit>` to `/dev/null` in the config dir.
pub fn mask(n: &UnitName, base: &str) -> (r: Link)
    ensures
        r@ == mask_link(n@, base@),
{
    Link { dir: base.to_owned(), link_name: n.filename(), target: "/dev/null".to_owned() }
}

/// The links that unmasking a unit removes: its own, where that is a link to
/// `/dev/null`.
pub open spec fn unmask_changes(n: NameView, base: Seq<char>, own: Option<Seq<char>>) -> Seq<
    ChangeView,
> {
    if own == Some("/dev/null"@) {
        seq![unlinked(paths::joined(base, name::name_text(n)), "/dev/null"@)]
    } else {
        seq![]
    }
}

/// `unmask` — removes the `/dev/null` link if present, given what the unit's
/// own link points to.
pub fn unmask(n: &UnitName, base: &str, own: &Option<String>) -> (r: EnableChanges)
    ensures
        r@ == (EnableView {
            carries_install_info: false,
            changes: unmask_changes(n@, base@, text::opt_text(*own)),
        }),
{
    let mut out = EnableChanges::default();
    if let Some(t) = own {
        if same(t.as_str(), "/dev/null") {
            out.record("unlink", join(base, n.filename().as_str()).as_str(), "/dev/null");
        }
    }
    proof {
        assert(out@.changes =~= unmask_changes(n@, base@, text::opt_text(*own)));
    }
    out
}

// ---------------------------------------------------------------------
// State
// ---------------------------------------------------------------------

/// Whether a file lies in one of the directories of the search path.
pub open spec fn in_search_path(file: Seq<char>, dirs: Seq<Seq<char>>) -> bool {
    paths::parent_of(file) is Some && dirs.contains(paths::parent_of(file)->Some_0)
}

fn lies_in(file: &str, dirs: &Vec<String>) -> (r: bool)
    ensures
        r == in_search_path(file@, text::texts(dirs@)),
{
    let ghost all = text::texts(dirs@);
    let dir = match parent(file) {
        Some(d) => d,
        None => {
            return false;
        },
    };
    let mut i: usize = 0;
    while i < dirs.len()
        invariant
            i <= dirs.len(),
            all == text::texts(dirs@),
            paths::parent_of(file@) == Some(dir@),
            forall|j: int| 0 <= j < i ==> #[trigger] all[j] != dir@,
        decreases dirs.len() - i,
    {
        assert(all[i as int] == dirs@[i as int]@);
        if same(dirs[i].as_str(), dir.as_str()) {
            return true;
        }
        i = i + 1;
    }
    false
}

/// The `is-enabled` state, given what the unit's own link points to, the search
/// path, whether the unit is linked to a target, whether it has a fragment, and
/// its `[Install]` section.
pub open spec fn file_state(
    own: Option<Seq<char>>,
    dirs: Seq<Seq<char>>,
    has_link: bool,
    has_fragment: bool,
    i: Option<InstallView>,
) -> Seq<char> {
    if own == Some("/dev/null"@) {
        "masked"@
    } else if own is Some && !in_search_path(own->Some_0, dirs) {
        "linked"@
    } else if has_link {
        "enabled"@
    } else if !has_fragment {
        "not-found"@
    } else if i is Some && !install::installs_nothing(i->Some_0) {
        "disabled"@
    } else {
        "static"@
    }
}

/// The section of an optional reference.
pub open spec fn opt_install(i: Option<&Install>) -> Option<InstallView> {
    match i {
        Some(x) => Some(x@),
        None => None,
    }
}

/// Compute `is-enabled` state. Mirrors `systemctl is-enabled`:
///
/// - `masked` — `<unit>` symlink to `/dev/null`.
/// - `linked` — fragment lives outside the search path but is symlinked in.
/// - `enabled` — at least one `<target>.wants/<unit>` link in any search dir.
/// - `disabled` — fragment exists, has `[Install]` info, but no link present.
/// - `static` — fragment exists, without `[Install]` info.
/// - `not-found` — no fragment at all.
pub fn unit_file_state(
    own: &Option<String>,
    dirs: &Vec<String>,
    has_link: bool,
    has_fragment: bool,
    i: Option<&Install>,
) -> (r: &'static str)
    ensures
        r@ == file_state(
            text::opt_text(*own),
            text::texts(dirs@),
            has_link,
            has_fragment,
            opt_install(i),
        ),
{
    if let Some(t) = own {
        if same(t.as_str(), "/dev/null") {
            return "masked";
        }
        if !lies_in(t.as_str(), dirs) {
            return "linked";
        }
    }
    if has_link {
        return "enabled";
    }
    if !has_fragment {
        return "not-found";
    }
    if let Some(i) = i {
        if !i.is_empty() {
            return "disabled";
        }
    }
    "static"
}

/// Whether an entry of a search directory links the unit to a target.
pub open spec fn is_install_link(e: BaseEntryView) -> bool {
    is_link_dir(e.file_name) && e.holds_unit
}

/// Whether this unit has a `<target>.wants/`, `<target>.requires/`, or
/// `<target>.upholds/` symlink in any search path, given the entries of all of
/// them.
pub fn has_install_link(entries: &Vec<BaseEntry>) -> (r: bool)
    ensures
        r == (exists|i: int|
            0 <= i < entries@.len() && #[trigger] is_install_link(
                base_entries_view(entries@)[i],
            )),
{
    let ghost all = base_entries_view(entries@);
    let mut i: usize = 0;
    while i < entries.len()
        invariant
            i <= entries.len(),
            all == base_entries_view(entries@),
            forall|j: int| 0 <= j < i ==> !is_install_link(#[trigger] all[j]),
        decreases entries.len() - i,
    {
        proof {
            assert(all[i as int] == entries@[i as int]@);
        }
        if holds_links(entries[i].file_name.as_str()) && entries[i].holds_unit {
            proof {
                assert(is_install_link(all[i as int]));
            }
            return true;
        }
        i = i + 1;
    }
    false
}

// ---------------------------------------------------------------------
// Laws
// ---------------------------------------------------------------------

/// Every link that enabling a unit makes for a target is one that disabling it
/// removes: its directory is a directory of links, and once that directory
/// holds the unit, its entry stands for that very link.
pub proof fn disable_removes_what_enable_links(
    n: NameView,
    i: InstallView,
    base: Seq<char>,
    source: Seq<char>,
    k: int,
)
    requires
        0 <= k < i.wanted_by.len() + i.required_by.len() + i.upheld_by.len(),
    ensures
        exists|d: Seq<char>|
            #![trigger is_link_dir(d)]
            is_link_dir(d) && enable_links(n, i, base, source)[k].dir == paths::joined(base, d)
                && unit_link(
                base,
                name::name_text(n),
                BaseEntryView { file_name: d, is_dir: true, is_symlink: false, holds_unit: true },
            ) == Some(link_path(enable_links(n, i, base, source)[k])),
{
    let a = i.wanted_by.len() as int;
    let b = i.required_by.len() as int;
    let l = enable_links(n, i, base, source)[k];
    let d = if k < a {
        name::name_text(i.wanted_by[k]) + ".wants"@
    } else if k < a + b {
        name::name_text(i.required_by[k - a]) + ".requires"@
    } else {
        name::name_text(i.upheld_by[k - a - b]) + ".upholds"@
    };
    let stem = if k < a {
        name::name_text(i.wanted_by[k])
    } else if k < a + b {
        name::name_text(i.required_by[k - a])
    } else {
        name::name_text(i.upheld_by[k - a - b])
    };
    assert((stem + ".wants"@).skip(stem.len() as int) =~= ".wants"@);
    assert((stem + ".requires"@).skip(stem.len() as int) =~= ".requires"@);
    assert((stem + ".upholds"@).skip(stem.len() as int) =~= ".upholds"@);
    assert(is_link_dir(d));
    assert(l.dir == paths::joined(base, d));
}

/// A unit that was masked is `masked`, whatever else is true of it, and
/// unmasking removes just the link that masking made.
pub proof fn unmask_undoes_mask(
    n: NameView,
    base: Seq<char>,
    dirs: Seq<Seq<char>>,
    has_link: bool,
    has_fragment: bool,
    i: Option<InstallView>,
)
    ensures
        file_state(Some(mask_link(n, base).target), dirs, has_link, has_fragment, i) == "masked"@,
        unmask_changes(n, base, Some(mask_link(n, base).target)) == seq![
            unlinked(link_path(mask_link(n, base)), mask_link(n, base).target),
        ],
{
}

/// Unmasking leaves alone a link that does not mask.
pub proof fn unmask_keeps_other_links(n: NameView, base: Seq<char>, own: Seq<char>)
    requires
        own != "/dev/null"@,
    ensures
        unmask_changes(n, base, Some(own)) == Seq::<ChangeView>::empty(),
{
}

/// A unit with a link for a target is `enabled`, unless its own name is a link
/// out of the search path.
pub proof fn linked_units_are_enabled(
    own: Option<Seq<char>>,
    dirs: Seq<Seq<char>>,
    has_fragment: bool,
    i: Option<InstallView>,
)
    requires
        own is Some ==> own->Some_0 != "/dev/null"@ && in_search_path(own->Some_0, dirs),
    ensures
        file_state(own, dirs, true, has_fragment, i) == "enabled"@,
{
}

} // verus!
