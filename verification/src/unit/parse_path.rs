//! The parser of the `[Path]` section.

use crate::number;
use crate::number::{parse_octal, parse_u32};
use crate::text::{chars_of, same};
use crate::unit::condition;
use crate::unit::condition::parse_bool;
use crate::unit::duration;
use crate::unit::duration::parse_duration;
use crate::unit::error;
use crate::unit::error::{ParseError, ParseErrorView, ParseWarning, ParseWarningView};
use crate::unit::ini;
use crate::unit::ini::{Entry, EntryView, Ini};
use crate::unit::name;
use crate::unit::name::UnitName;
use crate::unit::path_unit;
use crate::unit::path_unit::{PathUnit, PathView, PathWatch, WatchView};
use crate::unit::values;
use crate::unit::values::bad;
use vstd::prelude::*;

verus! {

/// What a directive does to the section; `None` where it is not known.
pub open spec fn path_directive(m: PathView, key: Seq<char>, v: Seq<char>) -> Option<
    Result<PathView, Seq<char>>,
> {
    if key == "PathExists"@ {
        Some(Ok(PathView { watches: m.watches.push(WatchView::Exists(v)), ..m }))
    } else if key == "PathExistsGlob"@ {
        Some(Ok(PathView { watches: m.watches.push(WatchView::ExistsGlob(v)), ..m }))
    } else if key == "PathChanged"@ {
        Some(Ok(PathView { watches: m.watches.push(WatchView::Changed(v)), ..m }))
    } else if key == "PathModified"@ {
        Some(Ok(PathView { watches: m.watches.push(WatchView::Modified(v)), ..m }))
    } else if key == "DirectoryNotEmpty"@ {
        Some(Ok(PathView { watches: m.watches.push(WatchView::DirectoryNotEmpty(v)), ..m }))
    } else if key == "Unit"@ {
        Some(
            match name::parse_name(v) {
                Ok(n) => Ok(PathView { unit: Some(n), ..m }),
                Err(_) => Err("unit name"@),
            },
        )
    } else if key == "MakeDirectory"@ {
        Some(
            match condition::bool_of(v) {
                Some(b) => Ok(PathView { make_directory: b, ..m }),
                None => Err("bool"@),
            },
        )
    } else if key == "DirectoryMode"@ {
        Some(
            match number::uint_of(v, 8, 0xffff_ffff) {
                Ok(n) => Ok(PathView { directory_mode: Some(n as u32), ..m }),
                Err(_) => Err("octal mode"@),
            },
        )
    } else if key == "TriggerLimitIntervalSec"@ {
        Some(
            match duration::duration_of(v, 1) {
                Ok(d) => Ok(PathView { trigger_limit_interval_sec: Some(d), ..m }),
                Err(reason) => Err(reason),
            },
        )
    } else if key == "TriggerLimitBurst"@ {
        Some(
            match number::uint_of(v, 10, 0xffff_ffff) {
                Ok(n) => Ok(PathView { trigger_limit_burst: Some(n as u32), ..m }),
                Err(_) => Err("u32"@),
            },
        )
    } else {
        None
    }
}

/// Applies a directive; false where it is not known.
fn set_path_directive(p: &mut PathUnit, key: &str, v: &str) -> (r: Result<bool, String>)
    ensures
        match r {
            Ok(true) => path_directive(old(p)@, key@, v@) == Some(
                Ok::<PathView, Seq<char>>(final(p)@),
            ),
            Ok(false) => path_directive(old(p)@, key@, v@) is None && final(p)@ == old(p)@,
            Err(reason) => path_directive(old(p)@, key@, v@) == Some(
                Err::<PathView, Seq<char>>(reason@),
            ),
        },
{
    if same(key, "PathExists") {
        let ghost before = p.watches@;
        let item = PathWatch::Exists(v.to_owned());
        p.watches.push(item);
        proof {
            assert(path_unit::watches_view(p.watches@) =~= path_unit::watches_view(before).push(item@));
        }
    } else if same(key, "PathExistsGlob") {
        let ghost before = p.watches@;
        let item = PathWatch::ExistsGlob(v.to_owned());
        p.watches.push(item);
        proof {
            assert(path_unit::watches_view(p.watches@) =~= path_unit::watches_view(before).push(item@));
        }
    } else if same(key, "PathChanged") {
        let ghost before = p.watches@;
        let item = PathWatch::Changed(v.to_owned());
        p.watches.push(item);
        proof {
            assert(path_unit::watches_view(p.watches@) =~= path_unit::watches_view(before).push(item@));
        }
    } else if same(key, "PathModified") {
        let ghost before = p.watches@;
        let item = PathWatch::Modified(v.to_owned());
        p.watches.push(item);
        proof {
            assert(path_unit::watches_view(p.watches@) =~= path_unit::watches_view(before).push(item@));
        }
    } else if same(key, "DirectoryNotEmpty") {
        let ghost before = p.watches@;
        let item = PathWatch::DirectoryNotEmpty(v.to_owned());
        p.watches.push(item);
        proof {
            assert(path_unit::watches_view(p.watches@) =~= path_unit::watches_view(before).push(item@));
        }
    } else if same(key, "Unit") {
        match UnitName::from_str(v) {
            Ok(n) => {
                p.unit = Some(n);
            },
            Err(_) => {
                return Err("unit name".to_owned());
            },
        }
    } else if same(key, "MakeDirectory") {
        match parse_bool(v) {
            Some(b) => {
                p.make_directory = b;
            },
            None => {
                return Err("bool".to_owned());
            },
        }
    } else if same(key, "DirectoryMode") {
        match parse_octal(chars_of(v).as_slice()) {
            Ok(n) => {
                p.directory_mode = Some(n);
            },
            Err(_) => {
                return Err("octal mode".to_owned());
            },
        }
    } else if same(key, "TriggerLimitIntervalSec") {
        match parse_duration(v, 1) {
            Ok(d) => {
                p.trigger_limit_interval_sec = Some(d);
            },
            Err(reason) => {
                return Err(reason);
            },
        }
    } else if same(key, "TriggerLimitBurst") {
        match parse_u32(chars_of(v).as_slice()) {
            Ok(n) => {
                p.trigger_limit_burst = Some(n);
            },
            Err(_) => {
                return Err("u32".to_owned());
            },
        }
    } else {
        return Ok(false);
    }
    Ok(true)
}

/// The section before any directive.
pub open spec fn fresh_path() -> PathView {
    path_unit::empty_path()
}

/// What one entry adds to the section and to the warnings.
pub open spec fn path_step(
    path: Seq<char>,
    m: PathView,
    ws: Seq<ParseWarningView>,
    e: EntryView,
) -> Result<(PathView, Seq<ParseWarningView>), ParseErrorView> {
    match path_directive(m, e.key, e.value) {
        Some(Ok(n)) => Ok((n, ws)),
        Some(Err(reason)) => Err(values::bad_directive(path, "Path"@, e, reason)),
        None => Ok(
            (
                m,
                ws.push(error::unknown_warning(Some(path), e.line, "Path"@, e.key)),
            ),
        ),
    }
}

/// What entries add to the section and to the warnings, up to the first that
/// is wrong.
pub open spec fn path_entries(
    path: Seq<char>,
    es: Seq<EntryView>,
    m: PathView,
    ws: Seq<ParseWarningView>,
) -> Result<(PathView, Seq<ParseWarningView>), ParseErrorView>
    decreases es.len(),
{
    if es.len() == 0 {
        Ok((m, ws))
    } else {
        match path_step(path, m, ws, es[0]) {
            Err(e) => Err(e),
            Ok((n, vs)) => path_entries(path, es.skip(1), n, vs),
        }
    }
}

fn apply_path_entry(
    path: &str,
    p: &mut PathUnit,
    e: &Entry,
    warnings: &mut Vec<ParseWarning>,
) -> (r: Result<(), ParseError>)
    ensures
        match r {
            Ok(()) => path_step(
                path@,
                old(p)@,
                values::warnings_view(old(warnings)@),
                e@,
            ) == Ok::<(PathView, Seq<ParseWarningView>), ParseErrorView>(
                (final(p)@, values::warnings_view(final(warnings)@)),
            ),
            Err(x) => path_step(
                path@,
                old(p)@,
                values::warnings_view(old(warnings)@),
                e@,
            ) == Err::<(PathView, Seq<ParseWarningView>), ParseErrorView>(x@),
        },
{
    let key = e.key.as_str();
    let ghost before = warnings@;
    match set_path_directive(p, key, e.value.as_str()) {
        Ok(true) => Ok(()),
        Ok(false) => {
            let w = ParseWarning::unknown(Some(path.to_owned()), e.line, "Path", key);
            warnings.push(w);
            proof {
                values::lemma_warnings_push(before, w);
            }
            Ok(())
        },
        Err(reason) => Err(bad(path, "Path", e, reason.as_str())),
    }
}

/// Parses the `[Path]` section.
pub fn parse_path(ini: &Ini, path: &str, warnings: &mut Vec<ParseWarning>) -> (r: Result<
    PathUnit,
    ParseError,
>)
    ensures
        match r {
            Ok(p) => path_entries(
                path@,
                ini::entries_or_none(ini@, "Path"@),
                fresh_path(),
                values::warnings_view(old(warnings)@),
            ) == Ok::<(PathView, Seq<ParseWarningView>), ParseErrorView>(
                (p@, values::warnings_view(final(warnings)@)),
            ),
            Err(x) => path_entries(
                path@,
                ini::entries_or_none(ini@, "Path"@),
                fresh_path(),
                values::warnings_view(old(warnings)@),
            ) == Err::<(PathView, Seq<ParseWarningView>), ParseErrorView>(x@),
        },
{
    let mut p = PathUnit::default();
    match ini.get("Path") {
        None => Ok(p),
        Some(entries) => {
            let mut i: usize = 0;
            let ghost all = ini::entries_view(entries@);
            let ghost ws = values::warnings_view(warnings@);
            proof {
                assert(all.skip(0) =~= all);
            }
            while i < entries.len()
                invariant
                    i <= entries.len(),
                    all == ini::entries_view(entries@),
                    all == ini::entries_or_none(ini@, "Path"@),
                    ws == values::warnings_view(old(warnings)@),
                    path_entries(path@, all, fresh_path(), ws) == path_entries(
                        path@,
                        all.skip(i as int),
                        p@,
                        values::warnings_view(warnings@),
                    ),
                decreases entries.len() - i,
            {
                proof {
                    assert(all.skip(i as int)[0] == entries@[i as int]@);
                    assert(all.skip(i as int).skip(1) =~= all.skip(i + 1));
                }
                if let Err(x) = apply_path_entry(path, &mut p, &entries[i], warnings) {
                    return Err(x);
                }
                i = i + 1;
            }
            Ok(p)
        },
    }
}

} // verus!
