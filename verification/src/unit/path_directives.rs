//! What a path unit has from the entries of its `[Path]` section.

use crate::number;
use crate::unit::condition;
use crate::unit::duration;
use crate::unit::entries;
use crate::unit::error::ParseWarningView;
use crate::unit::ini;
use crate::unit::ini::{EntryView, SectionView};
use crate::unit::name;
use crate::unit::name::NameView;
use crate::unit::parse_path;
use crate::unit::path_unit::{PathView, WatchView};
use crate::unit::spec;
use crate::unit::spec::UnitView;
use crate::unit::spelling;
use vstd::prelude::*;

verus! {

/// What an entry asks to watch.
pub open spec fn watch_of(key: Seq<char>, v: Seq<char>) -> Option<WatchView> {
    if key == "PathExists"@ {
        Some(WatchView::Exists(v))
    } else if key == "PathExistsGlob"@ {
        Some(WatchView::ExistsGlob(v))
    } else if key == "PathChanged"@ {
        Some(WatchView::Changed(v))
    } else if key == "PathModified"@ {
        Some(WatchView::Modified(v))
    } else if key == "DirectoryNotEmpty"@ {
        Some(WatchView::DirectoryNotEmpty(v))
    } else {
        None
    }
}

/// What the entries ask to watch, in order.
pub open spec fn watches_of(es: Seq<EntryView>) -> Seq<WatchView>
    decreases es.len(),
{
    if es.len() == 0 {
        seq![]
    } else {
        match watch_of(es.last().key, es.last().value) {
            Some(x) => watches_of(es.drop_last()).push(x),
            None => watches_of(es.drop_last()),
        }
    }
}

/// The names of the directives of path units.
spec fn in_directive(k: Seq<char>) -> bool {
    ||| k == "PathExists"@
    ||| k == "PathExistsGlob"@
    ||| k == "PathChanged"@
    ||| k == "PathModified"@
    ||| k == "DirectoryNotEmpty"@
    ||| k == "Unit"@
    ||| k == "MakeDirectory"@
    ||| k == "DirectoryMode"@
    ||| k == "TriggerLimitIntervalSec"@
    ||| k == "TriggerLimitBurst"@
}

proof fn lemma_directive(m: PathView, k: Seq<char>, v: Seq<char>)
    ensures
        parse_path::path_directive(m, k, v) is Some <==> in_directive(k),
        parse_path::path_directive(m, k, v) matches Some(Ok(n)) ==> {
            &&& n == (PathView { watches: n.watches, unit: n.unit, make_directory: n.make_directory, directory_mode: n.directory_mode, trigger_limit_interval_sec: n.trigger_limit_interval_sec, trigger_limit_burst: n.trigger_limit_burst, ..m })
            &&& (n.watches == match watch_of(k, v) {
Some(x) => m.watches.push(x),
None => m.watches,
})
            &&& (n.unit == if k == "Unit"@ {
Some(name::parse_name(v)->Ok_0)
} else {
m.unit
}) && (k == "Unit"@ ==> name::parse_name(v) is Ok)
            &&& (n.make_directory == if k == "MakeDirectory"@ {
condition::bool_of(v)->Some_0
} else {
m.make_directory
}) && (k == "MakeDirectory"@ ==> condition::bool_of(v) is Some)
            &&& (n.directory_mode == if k == "DirectoryMode"@ {
Some(number::uint_of(v, 8, 0xffff_ffff)->Ok_0 as u32)
} else {
m.directory_mode
}) && (k == "DirectoryMode"@ ==> number::uint_of(v, 8, 0xffff_ffff) is Ok)
            &&& (n.trigger_limit_interval_sec == if k == "TriggerLimitIntervalSec"@ {
Some(duration::duration_of(v, 1)->Ok_0)
} else {
m.trigger_limit_interval_sec
}) && (k == "TriggerLimitIntervalSec"@ ==> duration::duration_of(v, 1) is Ok)
            &&& (n.trigger_limit_burst == if k == "TriggerLimitBurst"@ {
Some(number::uint_of(v, 10, 0xffff_ffff)->Ok_0 as u32)
} else {
m.trigger_limit_burst
}) && (k == "TriggerLimitBurst"@ ==> number::uint_of(v, 10, 0xffff_ffff) is Ok)
        },
{
    spelling::lemma_path_directive_marks();
}

proof fn lemma_last(path: Seq<char>, es: Seq<EntryView>, m: PathView, ws: Seq<ParseWarningView>)
    requires
        es.len() > 0,
        parse_path::path_entries(path, es, m, ws) is Ok,
    ensures
        parse_path::path_entries(path, es.drop_last(), m, ws) matches Ok((n, vs)) && parse_path::path_entries(
            path,
            es,
            m,
            ws,
        ) == parse_path::path_step(path, n, vs, es.last()),
    decreases es.len(),
{
    let (n, vs) = parse_path::path_step(path, m, ws, es[0])->Ok_0;
    let rest = es.skip(1);
    if rest.len() == 0 {
        assert(es.drop_last() =~= seq![]);
    } else {
        lemma_last(path, rest, n, vs);
        assert(rest.last() == es.last());
        assert(es.drop_last().skip(1) =~= rest.drop_last());
        assert(es.drop_last()[0] == es[0]);
    }
}

proof fn lemma_directive_step(path: Seq<char>, m: PathView, ws: Seq<ParseWarningView>, e: EntryView)
    requires
        parse_path::path_step(path, m, ws, e) is Ok,
    ensures
        ({
            let n = parse_path::path_step(path, m, ws, e)->Ok_0.0;
            &&& (n.watches == match watch_of(e.key, e.value) {
Some(x) => m.watches.push(x),
None => m.watches,
})
            &&& (n.unit == if e.key == "Unit"@ {
Some(name::parse_name(e.value)->Ok_0)
} else {
m.unit
}) && (e.key == "Unit"@ ==> name::parse_name(e.value) is Ok)
            &&& (n.make_directory == if e.key == "MakeDirectory"@ {
condition::bool_of(e.value)->Some_0
} else {
m.make_directory
}) && (e.key == "MakeDirectory"@ ==> condition::bool_of(e.value) is Some)
            &&& (n.directory_mode == if e.key == "DirectoryMode"@ {
Some(number::uint_of(e.value, 8, 0xffff_ffff)->Ok_0 as u32)
} else {
m.directory_mode
}) && (e.key == "DirectoryMode"@ ==> number::uint_of(e.value, 8, 0xffff_ffff) is Ok)
            &&& (n.trigger_limit_interval_sec == if e.key == "TriggerLimitIntervalSec"@ {
Some(duration::duration_of(e.value, 1)->Ok_0)
} else {
m.trigger_limit_interval_sec
}) && (e.key == "TriggerLimitIntervalSec"@ ==> duration::duration_of(e.value, 1) is Ok)
            &&& (n.trigger_limit_burst == if e.key == "TriggerLimitBurst"@ {
Some(number::uint_of(e.value, 10, 0xffff_ffff)->Ok_0 as u32)
} else {
m.trigger_limit_burst
}) && (e.key == "TriggerLimitBurst"@ ==> number::uint_of(e.value, 10, 0xffff_ffff) is Ok)
        }),
{
    lemma_directive(m, e.key, e.value);
}

/// Each directive is the one that its own entries give.
pub open spec fn directives_are_given(s: PathView, es: Seq<EntryView>) -> bool {
    &&& s.watches == watches_of(es)
    &&& s.unit == match entries::last_of(es, "Unit"@) {
        Some(v) => Some(name::parse_name(v)->Ok_0),
        None => None,
    }
    &&& s.make_directory == match entries::last_of(es, "MakeDirectory"@) {
        Some(v) => condition::bool_of(v)->Some_0,
        None => false,
    }
    &&& s.directory_mode == match entries::last_of(es, "DirectoryMode"@) {
        Some(v) => Some(number::uint_of(v, 8, 0xffff_ffff)->Ok_0 as u32),
        None => None,
    }
    &&& s.trigger_limit_interval_sec == match entries::last_of(es, "TriggerLimitIntervalSec"@) {
        Some(v) => Some(duration::duration_of(v, 1)->Ok_0),
        None => None,
    }
    &&& s.trigger_limit_burst == match entries::last_of(es, "TriggerLimitBurst"@) {
        Some(v) => Some(number::uint_of(v, 10, 0xffff_ffff)->Ok_0 as u32),
        None => None,
    }
}

proof fn lemma_directive_fold(path: Seq<char>, es: Seq<EntryView>, ws: Seq<ParseWarningView>)
    requires
        parse_path::path_entries(path, es, parse_path::fresh_path(), ws) is Ok,
    ensures
        directives_are_given(parse_path::path_entries(path, es, parse_path::fresh_path(), ws)->Ok_0.0, es),
    decreases es.len(),
{
    if es.len() > 0 {
        let m = parse_path::fresh_path();
        lemma_last(path, es, m, ws);
        let before = es.drop_last();
        let (n, vs) = parse_path::path_entries(path, before, m, ws)->Ok_0;
        lemma_directive_fold(path, before, ws);
        lemma_directive_step(path, n, vs, es.last());
    }
}

/// The path unit that a file makes.
pub open spec fn path_of_file(
    name: NameView,
    path: Seq<char>,
    source: Seq<char>,
    sections: Seq<SectionView>,
) -> PathView {
    spec::unit_of_sections(name, path, source, sections)->Ok_0.0.kind->Path_0
}

proof fn lemma_of_file(
    name: NameView,
    path: Seq<char>,
    source: Seq<char>,
    sections: Seq<SectionView>,
) -> (ws: Seq<ParseWarningView>)
    requires
        spec::unit_of_sections(name, path, source, sections) is Ok,
        name.kind is Path,
    ensures
        ({
            let r = parse_path::path_entries(
                path,
                ini::entries_or_none(sections, "Path"@),
                parse_path::fresh_path(),
                ws,
            );
            &&& r is Ok
            &&& spec::unit_of_sections(name, path, source, sections)->Ok_0.0.kind is Path
            &&& path_of_file(name, path, source, sections) == r->Ok_0.0
        }),
{
    let m0 = UnitView { raw: sections, source, ..spec::empty_unit(name) };
    let es = ini::entries_or_none(sections, "Unit"@);
    let (m, ws) = spec::unit_entries(path, es, m0, seq![])->Ok_0;
    spec::lemma_entries_keep_name(path, es, m0, seq![]);
    let is = ini::entries_or_none(sections, "Install"@);
    spec::lemma_install_keeps_name(path, is, m, ws);
    spec::install_entries(path, is, m, ws).1
}

/// The watches of a path unit are, in order, those of its entries, each of the kind
/// that its name says, and every other directive is the parsed value of the last
/// entry of `[Path]` with that very name.
pub proof fn path_directives_are_those_given(
    name: NameView,
    path: Seq<char>,
    source: Seq<char>,
    sections: Seq<SectionView>,
)
    requires
        spec::unit_of_sections(name, path, source, sections) is Ok,
        name.kind is Path,
    ensures
        spec::unit_of_sections(name, path, source, sections)->Ok_0.0.kind is Path,
        directives_are_given(
            path_of_file(name, path, source, sections),
            ini::entries_or_none(sections, "Path"@),
        ),
{
    let ws = lemma_of_file(name, path, source, sections);
    lemma_directive_fold(path, ini::entries_or_none(sections, "Path"@), ws);
}

} // verus!
