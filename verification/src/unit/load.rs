//! Loading unit files by name across the search path.
//!
//! For a name like `foo.service`:
//! 1. Walk the search path looking for `foo.service` (case-sensitive). First
//!    hit becomes the main fragment.
//! 2. For each search path, look for `foo.service.d/*.conf` and stack them on
//!    top in alphabetical order.
//! 3. For instance names `foo@bar.service`, fall back to the template
//!    `foo@.service` if no instance-specific file exists.
//!
//! Drop-in handling is "name-aware": template `foo@.service.d/*.conf` are also
//! applied to instance `foo@bar.service`.
//!
//! The file system is read by the caller: these functions say where to look,
//! and make a unit of what was found there.

use crate::paths;
use crate::paths::{extension_is, join};
use crate::text;
use crate::text::chars_of;
use crate::unit::error::{ParseError, ParseErrorView, ParseWarning, ParseWarningView};
use crate::unit::ini;
use crate::unit::ini::{copy_entries, parse, render_ini, Ini, SectionView};
use crate::unit::name;
use crate::unit::name::{text_comes_before, NameView, UnitName};
use crate::unit::spec;
use crate::unit::spec::{parse_unit_file, parse_unit_str, Unit, UnitTypeData, UnitView};
use crate::unit::values;
use vstd::prelude::*;

verus! {

/// Outcome of loading: a fully-resolved `Unit` plus warnings from parsing
/// every fragment.
pub struct LoadedUnit {
    /// Resolved unit (main fragment + drop-ins applied).
    pub unit: Unit,
    /// Warnings collected from every fragment.
    pub warnings: Vec<ParseWarning>,
    /// True if the unit's main fragment came from a template (`foo@.service`).
    pub from_template: bool,
}

/// A [`LoadedUnit`] by its characters.
pub struct LoadedView {
    pub unit: UnitView,
    pub warnings: Seq<ParseWarningView>,
    pub from_template: bool,
}

impl View for LoadedUnit {
    type V = LoadedView;

    open spec fn view(&self) -> LoadedView {
        LoadedView {
            unit: self.unit@,
            warnings: values::warnings_view(self.warnings@),
            from_template: self.from_template,
        }
    }
}

// ---------------------------------------------------------------------
// Where to look
// ---------------------------------------------------------------------

/// A file name in each of the base directories.
pub open spec fn in_each(dirs: Seq<Seq<char>>, file: Seq<char>) -> Seq<Seq<char>> {
    dirs.map_values(|d: Seq<char>| paths::joined(d, file))
}

/// Where the main fragment of a unit can lie, in order of preference: its own
/// file in each directory, then the file of its template.
pub open spec fn main_candidates(n: NameView, dirs: Seq<Seq<char>>) -> Seq<Seq<char>> {
    match name::template_of(n) {
        None => in_each(dirs, name::name_text(n)),
        Some(t) => in_each(dirs, name::name_text(n)) + in_each(dirs, name::name_text(t)),
    }
}

fn push_in_each(out: &mut Vec<String>, dirs: &Vec<String>, file: &str)
    ensures
        text::texts(final(out)@) == text::texts(old(out)@) + in_each(text::texts(dirs@), file@),
{
    let mut i: usize = 0;
    let ghost all = in_each(text::texts(dirs@), file@);
    proof {
        assert(text::texts(out@) + all.take(0) =~= text::texts(out@));
    }
    while i < dirs.len()
        invariant
            i <= dirs.len(),
            all == in_each(text::texts(dirs@), file@),
            text::texts(out@) =~= text::texts(old(out)@) + all.take(i as int),
        decreases dirs.len() - i,
    {
        let ghost before = out@;
        let p = join(dirs[i].as_str(), file);
        out.push(p);
        proof {
            assert(text::texts(out@) =~= text::texts(before).push(all[i as int]));
        }
        i = i + 1;
    }
    proof {
        assert(all.take(all.len() as int) =~= all);
    }
}

/// Where the main fragment of a unit can lie, in order of preference.
pub fn main_fragment_candidates(n: &UnitName, base_dirs: &Vec<String>) -> (r: Vec<String>)
    ensures
        text::texts(r@) == main_candidates(n@, text::texts(base_dirs@)),
{
    let mut out: Vec<String> = Vec::new();
    push_in_each(&mut out, base_dirs, n.filename().as_str());
    if let Some(t) = n.template_form() {
        push_in_each(&mut out, base_dirs, t.filename().as_str());
    }
    proof {
        assert(text::texts(out@) =~= main_candidates(n@, text::texts(base_dirs@)));
    }
    out
}

/// The position of the first `true`, or the length.
pub open spec fn first_true(s: Seq<bool>) -> int
    decreases s.len(),
{
    if s.len() == 0 || s[0] {
        0
    } else {
        1 + first_true(s.skip(1))
    }
}

/// The error for a unit without a file.
pub open spec fn not_found(n: NameView) -> ParseErrorView {
    ParseErrorView::Io {
        path: name::name_text(n),
        message: "unit file not found in any search path"@,
    }
}

/// The main fragment, given which candidates are files, and whether it is that
/// of the template.
pub fn locate_main(n: &UnitName, base_dirs: &Vec<String>, is_file: &Vec<bool>) -> (r: Result<
    (String, bool),
    ParseError,
>)
    requires
        is_file@.len() == main_candidates(n@, text::texts(base_dirs@)).len(),
    ensures
        match r {
            Ok((path, from_template)) => first_true(is_file@) < is_file@.len() && path@
                == main_candidates(n@, text::texts(base_dirs@))[first_true(is_file@)]
                && from_template == (first_true(is_file@) >= base_dirs@.len()),
            Err(e) => first_true(is_file@) == is_file@.len() && e@ == not_found(n@),
        },
{
    let candidates = main_fragment_candidates(n, base_dirs);
    let mut i: usize = 0;
    proof {
        assert(is_file@.skip(0) =~= is_file@);
        assert(candidates@.len() == text::texts(candidates@).len());
    }
    while i < is_file.len() && !is_file[i]
        invariant
            i <= is_file.len(),
            first_true(is_file@) == i + first_true(is_file@.skip(i as int)),
        decreases is_file.len() - i,
    {
        proof {
            assert(is_file@.skip(i as int).skip(1) =~= is_file@.skip(i + 1));
        }
        i = i + 1;
    }
    if i < is_file.len() {
        proof {
            assert(text::texts(candidates@)[i as int] == candidates@[i as int]@);
        }
        Ok((candidates[i].clone(), i >= base_dirs.len()))
    } else {
        Err(
            ParseError::Io {
                path: n.filename(),
                message: "unit file not found in any search path".to_owned(),
            },
        )
    }
}

/// The drop-in directories of a unit in one base directory: its own, that of
/// its template, and that of its kind.
pub open spec fn dropin_dirs(n: NameView, base: Seq<char>) -> Seq<Seq<char>> {
    let own = seq![paths::joined(base, name::name_text(n) + ".d"@)];
    let kind = seq![paths::joined(base, name::suffix_text(n.kind).skip(1) + ".d"@)];
    match name::template_of(n) {
        None => own + kind,
        Some(t) => own + seq![paths::joined(base, name::name_text(t) + ".d"@)] + kind,
    }
}

/// The drop-in directories of a unit in one base directory.
pub fn candidate_dropin_dirs(n: &UnitName, base: &str) -> (r: Vec<String>)
    ensures
        text::texts(r@) == dropin_dirs(n@, base@),
{
    let mut out: Vec<String> = Vec::new();
    let mut own = n.filename();
    own.append(".d");
    out.push(join(base, own.as_str()));
    if let Some(t) = n.template_form() {
        let mut template = t.filename();
        template.append(".d");
        out.push(join(base, template.as_str()));
    }
    let suffix = text::chars_of(n.kind.suffix());
    proof {
        name::lemma_suffix_shape(n.kind);
        assert(suffix@.skip(1) =~= suffix@.subrange(1, suffix@.len() as int));
    }
    let mut kind = text::string_of(
        vstd::slice::slice_subrange(suffix.as_slice(), 1, suffix.len()),
    );
    kind.append(".d");
    out.push(join(base, kind.as_str()));
    proof {
        assert(text::texts(out@) =~= dropin_dirs(n@, base@));
    }
    out
}

// ---------------------------------------------------------------------
// Drop-ins
// ---------------------------------------------------------------------

/// A list in order with one more text: behind those that do not come after it.
pub open spec fn text_inserted(s: Seq<Seq<char>>, x: Seq<char>) -> Seq<Seq<char>>
    decreases s.len(),
{
    if s.len() == 0 {
        seq![x]
    } else if name::text_before(x, s[0]) {
        seq![x] + s
    } else {
        seq![s[0]] + text_inserted(s.skip(1), x)
    }
}

/// The `.conf` files among paths, in order.
pub open spec fn conf_files(ps: Seq<Seq<char>>) -> Seq<Seq<char>>
    decreases ps.len(),
{
    if ps.len() == 0 {
        seq![]
    } else if paths::has_extension(ps.last(), ".conf"@) {
        text_inserted(conf_files(ps.drop_last()), ps.last())
    } else {
        conf_files(ps.drop_last())
    }
}

fn insert_text(out: &mut Vec<String>, x: String)
    ensures
        text::texts(final(out)@) == text_inserted(text::texts(old(out)@), x@),
{
    let mut i: usize = 0;
    let ghost s = text::texts(out@);
    proof {
        assert(s.skip(0) =~= s);
        assert(s.take(0) + text_inserted(s, x@) =~= text_inserted(s, x@));
    }
    while i < out.len() && !text_comes_before(x.as_str(), out[i].as_str())
        invariant
            i <= out.len(),
            s == text::texts(out@),
            s == text::texts(old(out)@),
            text_inserted(s, x@) == s.take(i as int) + text_inserted(s.skip(i as int), x@),
        decreases out.len() - i,
    {
        proof {
            assert(s.skip(i as int).skip(1) =~= s.skip(i + 1));
            assert(s.take(i as int) + (seq![s[i as int]] + text_inserted(s.skip(i + 1), x@))
                =~= s.take(i + 1) + text_inserted(s.skip(i + 1), x@));
        }
        i = i + 1;
    }
    out.insert(i, x);
    proof {
        assert(text::texts(out@) =~= s.take(i as int) + (seq![x@] + s.skip(i as int)));
        if i == s.len() {
            assert(s.skip(i as int) =~= seq![]);
            assert(seq![x@] + s.skip(i as int) =~= seq![x@]);
        }
    }
}

/// Picks the `.conf` files among the entries of a drop-in directory, in order.
pub fn select_dropins(entries: &Vec<String>) -> (r: Vec<String>)
    ensures
        text::texts(r@) == conf_files(text::texts(entries@)),
{
    let mut out: Vec<String> = Vec::new();
    let mut i: usize = 0;
    let ghost all = text::texts(entries@);
    proof {
        assert(text::texts(out@) =~= seq![]);
    }
    while i < entries.len()
        invariant
            i <= entries.len(),
            all == text::texts(entries@),
            text::texts(out@) == conf_files(all.take(i as int)),
        decreases entries.len() - i,
    {
        proof {
            assert(all.take(i + 1).drop_last() =~= all.take(i as int));
            assert(all.take(i + 1).last() == entries@[i as int]@);
        }
        if extension_is(entries[i].as_str(), ".conf") {
            insert_text(&mut out, entries[i].clone());
        }
        i = i + 1;
    }
    proof {
        assert(all.take(all.len() as int) =~= all);
    }
    out
}

/// A drop-in file that has been read.
pub struct DropIn {
    /// Where it lies.
    pub path: String,
    /// What it holds.
    pub source: String,
}

/// A [`DropIn`] by its characters.
pub struct DropInView {
    pub path: Seq<char>,
    pub source: Seq<char>,
}

impl View for DropIn {
    type V = DropInView;

    open spec fn view(&self) -> DropInView {
        DropInView { path: self.path@, source: self.source@ }
    }
}

/// The views of a list of drop-ins.
pub open spec fn dropins_view(v: Seq<DropIn>) -> Seq<DropInView> {
    v.map_values(|d: DropIn| d@)
}

/// Sections with those of a drop-in laid under them, one after the other.
pub open spec fn layered(base: Seq<SectionView>, added: Seq<SectionView>) -> Seq<SectionView>
    decreases added.len(),
{
    if added.len() == 0 {
        base
    } else {
        ini::with_entries(
            layered(base, added.drop_last()),
            added.last().name,
            added.last().entries,
        )
    }
}

/// Sections with the drop-ins of a directory laid under them.
pub open spec fn stacked(base: Seq<SectionView>, ds: Seq<DropInView>) -> Result<
    Seq<SectionView>,
    ParseErrorView,
>
    decreases ds.len(),
{
    if ds.len() == 0 {
        Ok(base)
    } else {
        match stacked(base, ds.drop_last()) {
            Err(e) => Err(e),
            Ok(s) => match ini::parse_ini(ds.last().path, ds.last().source) {
                Err(e) => Err(e),
                Ok(added) => Ok(layered(s, added)),
            },
        }
    }
}

/// The paths of a list of drop-ins.
pub open spec fn dropin_paths(ds: Seq<DropInView>) -> Seq<Seq<char>> {
    ds.map_values(|d: DropInView| d.path)
}

/// A text with a file behind it; the text ends its last line before.
pub open spec fn followed_by(t: Seq<char>, file: Seq<char>) -> Seq<char> {
    if t.len() > 0 && t.last() != '\n' {
        t.push('\n') + file
    } else {
        t + file
    }
}

/// A text with the drop-ins of a directory behind it.
pub open spec fn with_sources(t: Seq<char>, ds: Seq<DropInView>) -> Seq<char>
    decreases ds.len(),
{
    if ds.len() == 0 {
        t
    } else {
        followed_by(with_sources(t, ds.drop_last()), ds.last().source)
    }
}

/// A unit with the drop-ins of a directory: its sections are stacked, rendered
/// and parsed anew, and its fragment paths and its source go on with theirs.
#[verifier::opaque]
pub open spec fn with_dropins(u: UnitView, ds: Seq<DropInView>) -> spec::UnitOutcome {
    match stacked(u.raw, ds) {
        Err(e) => Err(e),
        Ok(sections) => match spec::parse_unit(u.name, ini::ini_text(sections), None) {
            Err(e) => Err(e),
            Ok((n, ws)) => Ok(
                (
                    UnitView {
                        fragment_paths: u.fragment_paths + dropin_paths(ds),
                        source: with_sources(u.source, ds),
                        ..n
                    },
                    ws,
                ),
            ),
        },
    }
}

/// Lays the sections of a drop-in under those of a unit.
fn layer(base: &mut Ini, added: &Ini)
    ensures
        final(base)@ == layered(old(base)@, added@),
{
    let mut i: usize = 0;
    while i < added.len()
        invariant
            i <= added@.len(),
            base@ == layered(old(base)@, added@.take(i as int)),
        decreases added@.len() - i,
    {
        let s = added.section(i);
        let es = copy_entries(&s.entries);
        proof {
            assert(added@.take(i + 1).drop_last() =~= added@.take(i as int));
            assert(added@.take(i + 1).last() == s@);
        }
        base.extend_section(s.name.as_str(), es);
        i = i + 1;
    }
    proof {
        assert(added@.take(added@.len() as int) =~= added@);
    }
}

proof fn lemma_stacked_error(base: Seq<SectionView>, ds: Seq<DropInView>, n: int)
    requires
        0 <= n <= ds.len(),
        stacked(base, ds.take(n)) is Err,
    ensures
        stacked(base, ds) == stacked(base, ds.take(n)),
    decreases ds.len() - n,
{
    if n == ds.len() {
        assert(ds.take(n) =~= ds);
    } else {
        assert(ds.take(n + 1).drop_last() =~= ds.take(n));
        lemma_stacked_error(base, ds, n + 1);
    }
}

/// The view of stacked sections.
spec fn stack_result(r: Result<Ini, ParseError>) -> Result<Seq<SectionView>, ParseErrorView> {
    match r {
        Ok(i) => Ok(i@),
        Err(e) => Err(e@),
    }
}

/// Lays the drop-ins of a directory under the sections of a unit.
fn stack(base: Ini, files: &Vec<DropIn>) -> (r: Result<Ini, ParseError>)
    ensures
        stack_result(r) == stacked(base@, dropins_view(files@)),
{
    let ghost all = dropins_view(files@);
    let ghost base0 = base@;
    let mut raw = base;
    let mut i: usize = 0;
    while i < files.len()
        invariant
            i <= files.len(),
            base0 == base@,
            all == dropins_view(files@),
            stacked(base0, all.take(i as int)) == Ok::<Seq<SectionView>, ParseErrorView>(raw@),
        decreases files.len() - i,
    {
        proof {
            assert(all.take(i + 1).drop_last() =~= all.take(i as int));
            assert(all.take(i + 1).last() == files@[i as int]@);
        }
        match parse(files[i].path.as_str(), files[i].source.as_str()) {
            Err(x) => {
                proof {
                    lemma_stacked_error(base0, all, i + 1);
                }
                return Err(x);
            },
            Ok(added) => {
                layer(&mut raw, &added);
            },
        }
        i = i + 1;
    }
    proof {
        assert(all.take(all.len() as int) =~= all);
    }
    Ok(raw)
}

/// Adds the paths of drop-ins to a list.
fn push_paths(out: &mut Vec<String>, files: &Vec<DropIn>)
    ensures
        text::texts(final(out)@) == text::texts(old(out)@) + dropin_paths(dropins_view(files@)),
{
    let ghost all = dropin_paths(dropins_view(files@));
    let mut i: usize = 0;
    proof {
        assert(text::texts(out@) + all.take(0) =~= text::texts(out@));
    }
    while i < files.len()
        invariant
            i <= files.len(),
            all == dropin_paths(dropins_view(files@)),
            text::texts(out@) =~= text::texts(old(out)@) + all.take(i as int),
        decreases files.len() - i,
    {
        let ghost before = out@;
        out.push(files[i].path.clone());
        proof {
            assert(text::texts(out@) =~= text::texts(before).push(all[i as int]));
        }
        i = i + 1;
    }
    proof {
        assert(all.take(all.len() as int) =~= all);
    }
}

/// Adds what drop-ins hold to a text.
fn push_sources(out: &mut String, files: &Vec<DropIn>)
    ensures
        final(out)@ == with_sources(old(out)@, dropins_view(files@)),
{
    let ghost all = dropins_view(files@);
    let mut i: usize = 0;
    while i < files.len()
        invariant
            i <= files.len(),
            all == dropins_view(files@),
            out@ == with_sources(old(out)@, all.take(i as int)),
        decreases files.len() - i,
    {
        proof {
            assert(all.take(i + 1).drop_last() =~= all.take(i as int));
            assert(all.take(i + 1).last() == files@[i as int]@);
        }
        let v = chars_of(out.as_str());
        if v.len() > 0 && v[v.len() - 1] != '\n' {
            out.push('\n');
        }
        out.append(files[i].source.as_str());
        i = i + 1;
    }
    proof {
        assert(all.take(all.len() as int) =~= all);
    }
}

/// Applies the drop-ins of one directory to a unit.
pub fn apply_dropins(files: &Vec<DropIn>, unit: Unit, warnings: &mut Vec<ParseWarning>) -> (r:
    Result<Unit, ParseError>)
    ensures
        match r {
            Ok(u) => with_dropins(unit@, dropins_view(files@)) is Ok && u@ == with_dropins(
                unit@,
                dropins_view(files@),
            )->Ok_0.0 && values::warnings_view(final(warnings)@) == values::warnings_view(
                old(warnings)@,
            ) + with_dropins(unit@, dropins_view(files@))->Ok_0.1,
            Err(x) => with_dropins(unit@, dropins_view(files@)) == Err::<
                (UnitView, Seq<ParseWarningView>),
                ParseErrorView,
            >(x@),
        },
{
    proof {
        reveal(with_dropins);
    }
    let Unit { name, raw, fragment_paths, source, .. } = unit;
    let mut fragments = fragment_paths;
    push_paths(&mut fragments, files);
    let mut sources = source;
    push_sources(&mut sources, files);
    match stack(raw, files) {
        Err(x) => Err(x),
        Ok(merged) => {
            let text = render_ini(&merged);
            match parse_unit_str(name, text.as_str(), None) {
                Err(x) => Err(x),
                Ok(p) => {
                    let mut fresh = p.unit;
                    let mut more = p.warnings;
                    let ghost ws0 = warnings@;
                    let ghost ws1 = more@;
                    warnings.append(&mut more);
                    proof {
                        assert(values::warnings_view(warnings@) =~= values::warnings_view(ws0)
                            + values::warnings_view(ws1));
                    }
                    fresh.fragment_paths = fragments;
                    fresh.source = sources;
                    Ok(fresh)
                },
            }
        },
    }
}

/// A unit with the drop-ins of several directories, one after the other.
#[verifier::opaque]
pub open spec fn with_all_dropins(
    u: UnitView,
    ws: Seq<ParseWarningView>,
    dirs: Seq<Seq<DropInView>>,
) -> spec::UnitOutcome
    decreases dirs.len(),
{
    if dirs.len() == 0 {
        Ok((u, ws))
    } else {
        match with_dropins(u, dirs[0]) {
            Err(e) => Err(e),
            Ok((n, more)) => with_all_dropins(n, ws + more, dirs.skip(1)),
        }
    }
}

/// The views of the drop-ins of several directories.
pub open spec fn dropin_dirs_view(v: Seq<Vec<DropIn>>) -> Seq<Seq<DropInView>> {
    v.map_values(|d: Vec<DropIn>| dropins_view(d@))
}

/// What loading gives: the main fragment, with the drop-ins of every directory
/// that could be read.
pub open spec fn loaded(
    main_path: Seq<char>,
    source: Seq<char>,
    from_template: bool,
    dirs: Seq<Seq<DropInView>>,
) -> Result<LoadedView, ParseErrorView> {
    match spec::parse_fragment(main_path, source) {
        Err(e) => Err(e),
        Ok((u, ws)) => match with_all_dropins(u, ws, dirs) {
            Err(e) => Err(e),
            Ok((unit, warnings)) => Ok(LoadedView { unit, warnings, from_template }),
        },
    }
}

/// The view of a loaded unit.
pub open spec fn loaded_result(r: Result<LoadedUnit, ParseError>) -> Result<
    LoadedView,
    ParseErrorView,
> {
    match r {
        Ok(l) => Ok(l@),
        Err(e) => Err(e@),
    }
}

/// The view of a unit with its warnings.
spec fn unit_and_warnings(r: Result<(Unit, Vec<ParseWarning>), ParseError>) -> spec::UnitOutcome {
    match r {
        Ok((u, ws)) => Ok((u@, values::warnings_view(ws@))),
        Err(e) => Err(e@),
    }
}

/// The directories are taken one after the other.
proof fn lemma_next_directory(
    u: UnitView,
    ws: Seq<ParseWarningView>,
    dirs: Seq<Seq<DropInView>>,
    i: int,
)
    requires
        0 <= i < dirs.len(),
    ensures
        with_all_dropins(u, ws, dirs.skip(i)) == match with_dropins(u, dirs[i]) {
            Err(e) => Err(e),
            Ok((n, more)) => with_all_dropins(n, ws + more, dirs.skip(i + 1)),
        },
{
    reveal(with_all_dropins);
    assert(dirs.skip(i)[0] == dirs[i]);
    assert(dirs.skip(i).skip(1) =~= dirs.skip(i + 1));
}

/// Applies the drop-ins of several directories to a unit.
fn apply_all_dropins(dirs: &Vec<Vec<DropIn>>, unit: Unit, warnings: Vec<ParseWarning>) -> (r: Result<
    (Unit, Vec<ParseWarning>),
    ParseError,
>)
    ensures
        unit_and_warnings(r) == with_all_dropins(
            unit@,
            values::warnings_view(warnings@),
            dropin_dirs_view(dirs@),
        ),
{
    let ghost all = dropin_dirs_view(dirs@);
    let ghost whole = with_all_dropins(unit@, values::warnings_view(warnings@), all);
    let mut now = unit;
    let mut said = warnings;
    let mut i: usize = 0;
    proof {
        assert(all.skip(0) =~= all);
    }
    while i < dirs.len()
        invariant
            i <= dirs.len(),
            all == dropin_dirs_view(dirs@),
            whole == with_all_dropins(unit@, values::warnings_view(warnings@), all),
            whole == with_all_dropins(now@, values::warnings_view(said@), all.skip(i as int)),
        decreases dirs.len() - i,
    {
        proof {
            lemma_next_directory(now@, values::warnings_view(said@), all, i as int);
            assert(all[i as int] == dropins_view(dirs@[i as int]@));
        }
        match apply_dropins(&dirs[i], now, &mut said) {
            Err(x) => {
                return Err(x);
            },
            Ok(u) => {
                now = u;
            },
        }
        i = i + 1;
    }
    proof {
        reveal(with_all_dropins);
    }
    Ok((now, said))
}

/// Makes a unit of its main fragment and the drop-ins that were read, one list
/// for each readable directory, in order.
pub fn load_unit_in(
    main_path: &str,
    source: &str,
    from_template: bool,
    dirs: &Vec<Vec<DropIn>>,
) -> (r: Result<LoadedUnit, ParseError>)
    ensures
        loaded_result(r) == loaded(main_path@, source@, from_template, dropin_dirs_view(dirs@)),
{
    match parse_unit_file(main_path, source) {
        Err(x) => Err(x),
        Ok(p) => match apply_all_dropins(dirs, p.unit, p.warnings) {
            Err(x) => Err(x),
            Ok((unit, warnings)) => Ok(LoadedUnit { unit, warnings, from_template }),
        },
    }
}

/// A text with the drop-ins of several directories behind it.
pub open spec fn with_all_sources(t: Seq<char>, dirs: Seq<Seq<DropInView>>) -> Seq<char>
    decreases dirs.len(),
{
    if dirs.len() == 0 {
        t
    } else {
        with_all_sources(with_sources(t, dirs[0]), dirs.skip(1))
    }
}

proof fn lemma_dropins_keep_sources(
    u: UnitView,
    ws: Seq<ParseWarningView>,
    dirs: Seq<Seq<DropInView>>,
)
    ensures
        with_all_dropins(u, ws, dirs) is Ok ==> with_all_dropins(u, ws, dirs)->Ok_0.0.source
            == with_all_sources(u.source, dirs),
    decreases dirs.len(),
{
    reveal(with_all_dropins);
    if dirs.len() > 0 {
        reveal(with_dropins);
        if let Ok((n, more)) = with_dropins(u, dirs[0]) {
            lemma_dropins_keep_sources(n, ws + more, dirs.skip(1));
        }
    }
}

proof fn lemma_no_sources(t: Seq<char>, dirs: Seq<Seq<DropInView>>)
    requires
        forall|i: int| 0 <= i < dirs.len() ==> (#[trigger] dirs[i]).len() == 0,
    ensures
        with_all_sources(t, dirs) == t,
    decreases dirs.len(),
{
    if dirs.len() > 0 {
        let rest = dirs.skip(1);
        assert forall|i: int| 0 <= i < rest.len() implies (#[trigger] rest[i]).len() == 0 by {
            assert(rest[i] == dirs[i + 1]);
        }
        lemma_no_sources(t, rest);
    }
}

/// The `cat` output of a loaded unit is its main file with its drop-ins behind
/// it; without drop-ins it is the main file, as it is.
pub proof fn loaded_unit_keeps_its_files(
    main_path: Seq<char>,
    source: Seq<char>,
    from_template: bool,
    dirs: Seq<Seq<DropInView>>,
)
    requires
        loaded(main_path, source, from_template, dirs) is Ok,
    ensures
        ({
            let u = loaded(main_path, source, from_template, dirs)->Ok_0.unit;
            &&& u.source == with_all_sources(source, dirs)
            &&& (forall|i: int| 0 <= i < dirs.len() ==> (#[trigger] dirs[i]).len() == 0)
                ==> u.source == source
        }),
{
    if let Ok((u, ws)) = spec::parse_fragment(main_path, source) {
        if let Ok(n) = name::parse_path_name(main_path) {
            spec::cat_reproduces_the_file(n, source, Some(main_path));
        }
        lemma_dropins_keep_sources(u, ws, dirs);
    }
    if forall|i: int| 0 <= i < dirs.len() ==> (#[trigger] dirs[i]).len() == 0 {
        lemma_no_sources(source, dirs);
    }
}

// ---------------------------------------------------------------------
// Listing
// ---------------------------------------------------------------------

/// The unit files among paths, each with its name; other files are left out.
pub open spec fn units_among(ps: Seq<Seq<char>>) -> Seq<(NameView, Seq<char>)>
    decreases ps.len(),
{
    if ps.len() == 0 {
        seq![]
    } else {
        match name::parse_path_name(ps.last()) {
            Ok(n) => units_among(ps.drop_last()).push((n, ps.last())),
            Err(_) => units_among(ps.drop_last()),
        }
    }
}

/// The views of a list of named files.
pub open spec fn named_files_view(v: Seq<(UnitName, String)>) -> Seq<(NameView, Seq<char>)> {
    v.map_values(|p: (UnitName, String)| (p.0@, p.1@))
}

/// The unit files among the files found in the search path.
pub fn list_unit_files(files: &Vec<String>) -> (r: Vec<(UnitName, String)>)
    ensures
        named_files_view(r@) == units_among(text::texts(files@)),
{
    let mut out: Vec<(UnitName, String)> = Vec::new();
    let mut i: usize = 0;
    let ghost all = text::texts(files@);
    proof {
        assert(named_files_view(out@) =~= seq![]);
    }
    while i < files.len()
        invariant
            i <= files.len(),
            all == text::texts(files@),
            named_files_view(out@) == units_among(all.take(i as int)),
        decreases files.len() - i,
    {
        proof {
            assert(all.take(i + 1).drop_last() =~= all.take(i as int));
            assert(all.take(i + 1).last() == files@[i as int]@);
        }
        if let Ok(n) = UnitName::from_path(files[i].as_str()) {
            let ghost before = out@;
            out.push((n, files[i].clone()));
            proof {
                assert(named_files_view(out@) =~= named_files_view(before).push(
                    (n@, files@[i as int]@),
                ));
            }
        }
        i = i + 1;
    }
    proof {
        assert(all.take(all.len() as int) =~= all);
    }
    out
}

/// True if the unit's per-type data is something that can be activated.
pub fn is_activatable(unit: &Unit) -> (r: bool)
    ensures
        r == !(unit@.kind is Other),
{
    match unit.kind {
        UnitTypeData::Other => false,
        _ => true,
    }
}

} // verus!
