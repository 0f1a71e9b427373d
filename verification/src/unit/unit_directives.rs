//! What a unit has from the entries of its `[Unit]` and `[Install]` sections.

use crate::text;
use crate::unit::condition;
use crate::unit::condition::ConditionView;
use crate::unit::deps;
use crate::unit::deps::DepsView;
use crate::unit::duration;
use crate::unit::duration::SdDuration;
use crate::unit::entries;
use crate::unit::error::ParseWarningView;
use crate::unit::ini;
use crate::unit::ini::{EntryView, SectionView};
use crate::unit::install;
use crate::unit::install::InstallView;
use crate::unit::name;
use crate::unit::name::NameView;
use crate::unit::name_set;
use crate::unit::spec;
use crate::unit::spec::UnitView;
use crate::unit::spelling;
use crate::unit::values;
use vstd::prelude::*;

verus! {

// ---------------------------------------------------------------------
// Lists of names
// ---------------------------------------------------------------------

/// Whether a word is the name of the unit.
pub open spec fn names_unit(w: Seq<char>, n: NameView) -> bool {
    name::parse_name(w) matches Ok(x) && x == n
}

/// Whether a value has the name of a unit among its words.
pub open spec fn mentions(v: Seq<char>, n: NameView) -> bool {
    exists|j: int|
        0 <= j < text::items(v, true).len() && names_unit(#[trigger] text::items(v, true)[j], n)
}

/// Whether an entry with the key has the name of a unit among its words.
pub open spec fn is_named(es: Seq<EntryView>, key: Seq<char>, n: NameView) -> bool {
    exists|i: int| 0 <= i < es.len() && (#[trigger] es[i]).key == key && mentions(es[i].value, n)
}

/// Whether the set is, in order, just the names that the entries with the key
/// mention.
pub open spec fn holds_the_named(s: Seq<NameView>, es: Seq<EntryView>, key: Seq<char>) -> bool {
    &&& name_set::is_ordered(s)
    &&& forall|n: NameView| #[trigger] s.contains(n) <==> is_named(es, key, n)
}

proof fn lemma_names_among(ws: Seq<Seq<char>>, n: NameView)
    ensures
        values::names_among(ws).contains(n) <==> exists|j: int|
            0 <= j < ws.len() && names_unit(#[trigger] ws[j], n),
    decreases ws.len(),
{
    if ws.len() > 0 {
        let before = ws.drop_last();
        lemma_names_among(before, n);
        let a = values::names_among(before);
        let k = ws.len() - 1;
        if name::parse_name(ws.last()) is Ok {
            let x = name::parse_name(ws.last())->Ok_0;
            assert(a.push(x)[a.len() as int] == x);
            if a.contains(n) {
                let i = choose|i: int| 0 <= i < a.len() && a[i] == n;
                assert(a.push(x)[i] == n);
            }
        }
        if a.contains(n) {
            let j = choose|j: int|
                0 <= j < before.len() && names_unit(#[trigger] before[j], n);
            assert(ws[j] == before[j]);
        }
        if exists|j: int|
            0 <= j < ws.len() && names_unit(#[trigger] ws[j], n) {
            let j = choose|j: int|
                0 <= j < ws.len() && names_unit(#[trigger] ws[j], n);
            if j < k {
                assert(before[j] == ws[j]);
            }
        }
    }
}

proof fn lemma_extended(s: Seq<NameView>, xs: Seq<NameView>)
    requires
        name_set::is_ordered(s),
    ensures
        name_set::is_ordered(name_set::extended(s, xs)),
        forall|n: NameView| #[trigger]
            name_set::extended(s, xs).contains(n) <==> s.contains(n) || xs.contains(n),
    decreases xs.len(),
{
    if xs.len() > 0 {
        let before = xs.drop_last();
        lemma_extended(s, before);
        let t = name_set::extended(s, before);
        name_set::insertion_keeps_order(t, xs.last());
        assert forall|n: NameView| #[trigger] name_set::extended(s, xs).contains(n) <==> s.contains(n)
            || xs.contains(n) by {
            assert(name_set::inserted(t, xs.last()).contains(n) <==> t.contains(n) || n == xs.last());
            assert(t.contains(n) <==> s.contains(n) || before.contains(n));
            assert(xs[xs.len() - 1] == xs.last());
            if before.contains(n) {
                let i = choose|i: int| 0 <= i < before.len() && before[i] == n;
                assert(xs[i] == n);
            }
            if xs.contains(n) && n != xs.last() {
                let i = choose|i: int| 0 <= i < xs.len() && xs[i] == n;
                assert(before[i] == n);
            }
        }
    }
}

/// The set after one more entry.
spec fn with_entry(s: Seq<NameView>, e: EntryView, key: Seq<char>) -> Seq<NameView> {
    if e.key == key {
        name_set::extended(s, values::names_among(text::items(e.value, true)))
    } else {
        s
    }
}

proof fn lemma_with_entry(s: Seq<NameView>, es: Seq<EntryView>, key: Seq<char>)
    requires
        es.len() > 0,
        holds_the_named(s, es.drop_last(), key),
    ensures
        holds_the_named(with_entry(s, es.last(), key), es, key),
{
    let before = es.drop_last();
    let e = es.last();
    let xs = values::names_among(text::items(e.value, true));
    lemma_extended(s, xs);
    let t = with_entry(s, e, key);
    assert forall|n: NameView| #[trigger] t.contains(n) <==> is_named(es, key, n) by {
        lemma_names_among(text::items(e.value, true), n);
        assert(xs.contains(n) <==> mentions(e.value, n));
        assert(s.contains(n) <==> is_named(before, key, n));
        if is_named(before, key, n) {
            let i = choose|i: int|
                0 <= i < before.len() && (#[trigger] before[i]).key == key && mentions(
                    before[i].value,
                    n,
                );
            assert(es[i] == before[i]);
        }
        assert(es[es.len() - 1] == e);
        if is_named(es, key, n) {
            let i = choose|i: int|
                0 <= i < es.len() && (#[trigger] es[i]).key == key && mentions(es[i].value, n);
            if i < es.len() - 1 {
                assert(before[i] == es[i]);
            }
        }
    }
}

// ---------------------------------------------------------------------
// Directives
// ---------------------------------------------------------------------

/// The names of the directives of dependencies.
spec fn in_deps(k: Seq<char>) -> bool {
    ||| k == "After"@
    ||| k == "Before"@
    ||| k == "Wants"@
    ||| k == "Requires"@
    ||| k == "Requisite"@
    ||| k == "BindsTo"@
    ||| k == "PartOf"@
    ||| k == "Upholds"@
    ||| k == "Conflicts"@
    ||| k == "OnFailure"@
    ||| k == "OnSuccess"@
    ||| k == "PropagatesReloadTo"@
    ||| k == "ReloadPropagatedFrom"@
    ||| k == "PropagatesStopTo"@
    ||| k == "StopPropagatedFrom"@
    ||| k == "JoinsNamespaceOf"@
}

/// The names of the directives of texts.
spec fn in_text(k: Seq<char>) -> bool {
    ||| k == "Description"@
    ||| k == "Documentation"@
    ||| k == "OnFailureJobMode"@
    ||| k == "CollectMode"@
    ||| k == "FailureAction"@
    ||| k == "SuccessAction"@
    ||| k == "RebootArgument"@
    ||| k == "SourcePath"@
    ||| k == "JobTimeoutSec"@
    ||| k == "JobRunningTimeoutSec"@
}

/// The names of the directives of switches.
spec fn in_switch(k: Seq<char>) -> bool {
    ||| k == "DefaultDependencies"@
    ||| k == "StopWhenUnneeded"@
    ||| k == "RefuseManualStart"@
    ||| k == "RefuseManualStop"@
    ||| k == "AllowIsolate"@
    ||| k == "IgnoreOnIsolate"@
}

proof fn lemma_deps(m: DepsView, e: EntryView)
    ensures
        spec::deps_directive(m, e.key, e.value) is Some <==> in_deps(e.key),
        spec::deps_directive(m, e.key, e.value) matches Some(n) ==> {
            &&& n.after == with_entry(m.after, e, "After"@)
            &&& n.before == with_entry(m.before, e, "Before"@)
            &&& n.wants == with_entry(m.wants, e, "Wants"@)
            &&& n.requires == with_entry(m.requires, e, "Requires"@)
            &&& n.requisite == with_entry(m.requisite, e, "Requisite"@)
            &&& n.binds_to == with_entry(m.binds_to, e, "BindsTo"@)
            &&& n.part_of == with_entry(m.part_of, e, "PartOf"@)
            &&& n.upholds == with_entry(m.upholds, e, "Upholds"@)
            &&& n.conflicts == with_entry(m.conflicts, e, "Conflicts"@)
            &&& n.on_failure == with_entry(m.on_failure, e, "OnFailure"@)
            &&& n.on_success == with_entry(m.on_success, e, "OnSuccess"@)
            &&& n.propagates_reload_to == with_entry(m.propagates_reload_to, e, "PropagatesReloadTo"@)
            &&& n.reload_propagated_from == with_entry(m.reload_propagated_from, e, "ReloadPropagatedFrom"@)
            &&& n.propagates_stop_to == with_entry(m.propagates_stop_to, e, "PropagatesStopTo"@)
            &&& n.stop_propagated_from == with_entry(m.stop_propagated_from, e, "StopPropagatedFrom"@)
            &&& n.joins_namespace_of == with_entry(m.joins_namespace_of, e, "JoinsNamespaceOf"@)
        },
{
    spelling::lemma_deps_directive_marks();
}

proof fn lemma_text(m: UnitView, k: Seq<char>, v: Seq<char>)
    ensures
        spec::unit_text(m, k, v) is Some <==> in_text(k),
        spec::unit_text(m, k, v) matches Some(Ok(n)) ==> {
            &&& n == (UnitView { description: n.description, documentation: n.documentation, on_failure_job_mode: n.on_failure_job_mode, collect_mode: n.collect_mode, failure_action: n.failure_action, success_action: n.success_action, reboot_argument: n.reboot_argument, source_path: n.source_path, job_timeout_sec: n.job_timeout_sec, job_running_timeout_sec: n.job_running_timeout_sec, ..m })
            &&& (n.description == if k == "Description"@ {
v
} else {
m.description
})
            &&& (n.documentation == if k == "Documentation"@ {
m.documentation + text::items(v, true)
} else {
m.documentation
})
            &&& (n.on_failure_job_mode == if k == "OnFailureJobMode"@ {
Some(v)
} else {
m.on_failure_job_mode
})
            &&& (n.collect_mode == if k == "CollectMode"@ {
Some(v)
} else {
m.collect_mode
})
            &&& (n.failure_action == if k == "FailureAction"@ {
Some(v)
} else {
m.failure_action
})
            &&& (n.success_action == if k == "SuccessAction"@ {
Some(v)
} else {
m.success_action
})
            &&& (n.reboot_argument == if k == "RebootArgument"@ {
Some(v)
} else {
m.reboot_argument
})
            &&& (n.source_path == if k == "SourcePath"@ {
Some(v)
} else {
m.source_path
})
            &&& (n.job_timeout_sec == if k == "JobTimeoutSec"@ {
Some(duration::duration_of(v, 1)->Ok_0)
} else {
m.job_timeout_sec
}) && (k == "JobTimeoutSec"@ ==> duration::duration_of(v, 1) is Ok)
            &&& (n.job_running_timeout_sec == if k == "JobRunningTimeoutSec"@ {
Some(duration::duration_of(v, 1)->Ok_0)
} else {
m.job_running_timeout_sec
}) && (k == "JobRunningTimeoutSec"@ ==> duration::duration_of(v, 1) is Ok)
        },
{
    spelling::lemma_unit_text_marks();
}

proof fn lemma_switch(m: UnitView, k: Seq<char>, v: Seq<char>)
    ensures
        spec::unit_switch(m, k, v) is Some <==> in_switch(k),
        spec::unit_switch(m, k, v) matches Some(Ok(n)) ==> {
            &&& n == (UnitView { default_dependencies: n.default_dependencies, stop_when_unneeded: n.stop_when_unneeded, refuse_manual_start: n.refuse_manual_start, refuse_manual_stop: n.refuse_manual_stop, allow_isolate: n.allow_isolate, ignore_on_isolate: n.ignore_on_isolate, ..m })
            &&& (n.default_dependencies == if k == "DefaultDependencies"@ {
condition::bool_of(v)->Some_0
} else {
m.default_dependencies
}) && (k == "DefaultDependencies"@ ==> condition::bool_of(v) is Some)
            &&& (n.stop_when_unneeded == if k == "StopWhenUnneeded"@ {
condition::bool_of(v)->Some_0
} else {
m.stop_when_unneeded
}) && (k == "StopWhenUnneeded"@ ==> condition::bool_of(v) is Some)
            &&& (n.refuse_manual_start == if k == "RefuseManualStart"@ {
condition::bool_of(v)->Some_0
} else {
m.refuse_manual_start
}) && (k == "RefuseManualStart"@ ==> condition::bool_of(v) is Some)
            &&& (n.refuse_manual_stop == if k == "RefuseManualStop"@ {
condition::bool_of(v)->Some_0
} else {
m.refuse_manual_stop
}) && (k == "RefuseManualStop"@ ==> condition::bool_of(v) is Some)
            &&& (n.allow_isolate == if k == "AllowIsolate"@ {
condition::bool_of(v)->Some_0
} else {
m.allow_isolate
}) && (k == "AllowIsolate"@ ==> condition::bool_of(v) is Some)
            &&& (n.ignore_on_isolate == if k == "IgnoreOnIsolate"@ {
condition::bool_of(v)->Some_0
} else {
m.ignore_on_isolate
}) && (k == "IgnoreOnIsolate"@ ==> condition::bool_of(v) is Some)
        },
{
    spelling::lemma_unit_switch_marks();
}

/// The conditions of the entries whose names begin with the word, in order.
pub open spec fn conditions_of(es: Seq<EntryView>, word: Seq<char>) -> Seq<ConditionView>
    decreases es.len(),
{
    if es.len() == 0 {
        seq![]
    } else {
        match text::without_prefix(es.last().key, word) {
            Some(kind) => conditions_of(es.drop_last(), word).push(
                condition::condition_of(kind, es.last().value)->Ok_0,
            ),
            None => conditions_of(es.drop_last(), word),
        }
    }
}

/// The list with the condition of one more entry.
spec fn with_condition(s: Seq<ConditionView>, e: EntryView, word: Seq<char>) -> Seq<ConditionView> {
    match text::without_prefix(e.key, word) {
        Some(kind) => s.push(condition::condition_of(kind, e.value)->Ok_0),
        None => s,
    }
}

proof fn lemma_heads(k: Seq<char>)
    ensures
        text::begins_with(k, "Condition"@) ==> k.len() > 3 && k[0] == 'C' && k[3] == 'd',
        text::begins_with(k, "Assert"@) ==> k.len() > 3 && k[0] == 'A' && k[1] == 's',
        in_deps(k) || in_text(k) || in_switch(k) ==> !text::begins_with(k, "Condition"@)
            && !text::begins_with(k, "Assert"@),
{
    reveal_strlit("Condition");
    reveal_strlit("Assert");
    if text::begins_with(k, "Condition"@) {
        assert(k.take(9)[0] == k[0] && k.take(9)[3] == k[3]);
    }
    if text::begins_with(k, "Assert"@) {
        assert(k.take(6)[0] == k[0] && k.take(6)[1] == k[1]);
    }
    if in_deps(k) {
        lemma_deps_heads(k);
    }
    if in_text(k) {
        lemma_text_heads(k);
    }
    if in_switch(k) {
        lemma_switch_heads(k);
    }
}

proof fn lemma_deps_heads(k: Seq<char>)
    requires
        in_deps(k),
    ensures
        !(k[0] == 'C' && k[3] == 'd'),
        !(k[0] == 'A' && k[1] == 's'),
{
    reveal_strlit("After");
    reveal_strlit("Before");
    reveal_strlit("Wants");
    reveal_strlit("Requires");
    reveal_strlit("Requisite");
    reveal_strlit("BindsTo");
    reveal_strlit("PartOf");
    reveal_strlit("Upholds");
    reveal_strlit("Conflicts");
    reveal_strlit("OnFailure");
    reveal_strlit("OnSuccess");
    reveal_strlit("PropagatesReloadTo");
    reveal_strlit("ReloadPropagatedFrom");
    reveal_strlit("PropagatesStopTo");
    reveal_strlit("StopPropagatedFrom");
    reveal_strlit("JoinsNamespaceOf");
}

proof fn lemma_text_heads(k: Seq<char>)
    requires
        in_text(k),
    ensures
        !(k[0] == 'C' && k[3] == 'd'),
        !(k[0] == 'A' && k[1] == 's'),
{
    reveal_strlit("Description");
    reveal_strlit("Documentation");
    reveal_strlit("OnFailureJobMode");
    reveal_strlit("CollectMode");
    reveal_strlit("FailureAction");
    reveal_strlit("SuccessAction");
    reveal_strlit("RebootArgument");
    reveal_strlit("SourcePath");
    reveal_strlit("JobTimeoutSec");
    reveal_strlit("JobRunningTimeoutSec");
}

proof fn lemma_switch_heads(k: Seq<char>)
    requires
        in_switch(k),
    ensures
        !(k[0] == 'C' && k[3] == 'd'),
        !(k[0] == 'A' && k[1] == 's'),
{
    reveal_strlit("DefaultDependencies");
    reveal_strlit("StopWhenUnneeded");
    reveal_strlit("RefuseManualStart");
    reveal_strlit("RefuseManualStop");
    reveal_strlit("AllowIsolate");
    reveal_strlit("IgnoreOnIsolate");
}

proof fn lemma_condition(m: UnitView, e: EntryView)
    ensures
        spec::unit_condition(m, e.key, e.value) is None ==> !text::begins_with(
            e.key,
            "Condition"@,
        ) && !text::begins_with(e.key, "Assert"@),
        spec::unit_condition(m, e.key, e.value) matches Some(Ok(n)) ==> {
            &&& n == (UnitView { conditions: n.conditions, ..m })
            &&& n.conditions.conditions == with_condition(
                m.conditions.conditions,
                e,
                "Condition"@,
            )
            &&& n.conditions.asserts == with_condition(m.conditions.asserts, e, "Assert"@)
        },
{
    lemma_heads(e.key);
}

proof fn lemma_one_place(k: Seq<char>)
    ensures
        in_deps(k) ==> !in_text(k) && !in_switch(k),
        in_text(k) ==> !in_deps(k) && !in_switch(k),
        in_switch(k) ==> !in_deps(k) && !in_text(k),
{
    spelling::lemma_unit_marks();
}

/// What one entry does to the unit, directive by directive.
proof fn lemma_step(path: Seq<char>, m: UnitView, ws: Seq<ParseWarningView>, e: EntryView)
    requires
        spec::unit_step(path, m, ws, e) is Ok,
    ensures
        ({
            let n = spec::unit_step(path, m, ws, e)->Ok_0.0;
            &&& n.install == m.install
            &&& n.conditions.conditions == with_condition(m.conditions.conditions, e, "Condition"@)
            &&& n.conditions.asserts == with_condition(m.conditions.asserts, e, "Assert"@)
            &&& n.deps.after == with_entry(m.deps.after, e, "After"@)
            &&& n.deps.before == with_entry(m.deps.before, e, "Before"@)
            &&& n.deps.wants == with_entry(m.deps.wants, e, "Wants"@)
            &&& n.deps.requires == with_entry(m.deps.requires, e, "Requires"@)
            &&& n.deps.requisite == with_entry(m.deps.requisite, e, "Requisite"@)
            &&& n.deps.binds_to == with_entry(m.deps.binds_to, e, "BindsTo"@)
            &&& n.deps.part_of == with_entry(m.deps.part_of, e, "PartOf"@)
            &&& n.deps.upholds == with_entry(m.deps.upholds, e, "Upholds"@)
            &&& n.deps.conflicts == with_entry(m.deps.conflicts, e, "Conflicts"@)
            &&& n.deps.on_failure == with_entry(m.deps.on_failure, e, "OnFailure"@)
            &&& n.deps.on_success == with_entry(m.deps.on_success, e, "OnSuccess"@)
            &&& n.deps.propagates_reload_to == with_entry(m.deps.propagates_reload_to, e, "PropagatesReloadTo"@)
            &&& n.deps.reload_propagated_from == with_entry(m.deps.reload_propagated_from, e, "ReloadPropagatedFrom"@)
            &&& n.deps.propagates_stop_to == with_entry(m.deps.propagates_stop_to, e, "PropagatesStopTo"@)
            &&& n.deps.stop_propagated_from == with_entry(m.deps.stop_propagated_from, e, "StopPropagatedFrom"@)
            &&& n.deps.joins_namespace_of == with_entry(m.deps.joins_namespace_of, e, "JoinsNamespaceOf"@)
            &&& (n.description == if e.key == "Description"@ {
e.value
} else {
m.description
})
            &&& (n.documentation == if e.key == "Documentation"@ {
m.documentation + text::items(e.value, true)
} else {
m.documentation
})
            &&& (n.on_failure_job_mode == if e.key == "OnFailureJobMode"@ {
Some(e.value)
} else {
m.on_failure_job_mode
})
            &&& (n.collect_mode == if e.key == "CollectMode"@ {
Some(e.value)
} else {
m.collect_mode
})
            &&& (n.failure_action == if e.key == "FailureAction"@ {
Some(e.value)
} else {
m.failure_action
})
            &&& (n.success_action == if e.key == "SuccessAction"@ {
Some(e.value)
} else {
m.success_action
})
            &&& (n.reboot_argument == if e.key == "RebootArgument"@ {
Some(e.value)
} else {
m.reboot_argument
})
            &&& (n.source_path == if e.key == "SourcePath"@ {
Some(e.value)
} else {
m.source_path
})
            &&& (n.job_timeout_sec == if e.key == "JobTimeoutSec"@ {
Some(duration::duration_of(e.value, 1)->Ok_0)
} else {
m.job_timeout_sec
}) && (e.key == "JobTimeoutSec"@ ==> duration::duration_of(e.value, 1) is Ok)
            &&& (n.job_running_timeout_sec == if e.key == "JobRunningTimeoutSec"@ {
Some(duration::duration_of(e.value, 1)->Ok_0)
} else {
m.job_running_timeout_sec
}) && (e.key == "JobRunningTimeoutSec"@ ==> duration::duration_of(e.value, 1) is Ok)
            &&& (n.default_dependencies == if e.key == "DefaultDependencies"@ {
condition::bool_of(e.value)->Some_0
} else {
m.default_dependencies
}) && (e.key == "DefaultDependencies"@ ==> condition::bool_of(e.value) is Some)
            &&& (n.stop_when_unneeded == if e.key == "StopWhenUnneeded"@ {
condition::bool_of(e.value)->Some_0
} else {
m.stop_when_unneeded
}) && (e.key == "StopWhenUnneeded"@ ==> condition::bool_of(e.value) is Some)
            &&& (n.refuse_manual_start == if e.key == "RefuseManualStart"@ {
condition::bool_of(e.value)->Some_0
} else {
m.refuse_manual_start
}) && (e.key == "RefuseManualStart"@ ==> condition::bool_of(e.value) is Some)
            &&& (n.refuse_manual_stop == if e.key == "RefuseManualStop"@ {
condition::bool_of(e.value)->Some_0
} else {
m.refuse_manual_stop
}) && (e.key == "RefuseManualStop"@ ==> condition::bool_of(e.value) is Some)
            &&& (n.allow_isolate == if e.key == "AllowIsolate"@ {
condition::bool_of(e.value)->Some_0
} else {
m.allow_isolate
}) && (e.key == "AllowIsolate"@ ==> condition::bool_of(e.value) is Some)
            &&& (n.ignore_on_isolate == if e.key == "IgnoreOnIsolate"@ {
condition::bool_of(e.value)->Some_0
} else {
m.ignore_on_isolate
}) && (e.key == "IgnoreOnIsolate"@ ==> condition::bool_of(e.value) is Some)
        }),
{
    lemma_one_place(e.key);
    lemma_deps(m.deps, e);
    lemma_text(m, e.key, e.value);
    lemma_switch(m, e.key, e.value);
    lemma_condition(m, e);
    lemma_heads(e.key);
}

proof fn lemma_last(path: Seq<char>, es: Seq<EntryView>, m: UnitView, ws: Seq<ParseWarningView>)
    requires
        es.len() > 0,
        spec::unit_entries(path, es, m, ws) is Ok,
    ensures
        spec::unit_entries(path, es.drop_last(), m, ws) matches Ok((n, vs)) && spec::unit_entries(
            path,
            es,
            m,
            ws,
        ) == spec::unit_step(path, n, vs, es.last()),
    decreases es.len(),
{
    let (n, vs) = spec::unit_step(path, m, ws, es[0])->Ok_0;
    let rest = es.skip(1);
    if rest.len() == 0 {
        assert(es.drop_last() =~= seq![]);
    } else {
        lemma_last(path, rest, n, vs);
        assert(rest.last() == es.last());
        assert(es.drop_last().skip(1) =~= rest.drop_last());
        assert(es.drop_last()[0] == es[0]);
    }
}

/// Each set of dependencies is that of its own directive.
pub open spec fn deps_are_given(d: DepsView, es: Seq<EntryView>) -> bool {
    &&& holds_the_named(d.after, es, "After"@)
    &&& holds_the_named(d.before, es, "Before"@)
    &&& holds_the_named(d.wants, es, "Wants"@)
    &&& holds_the_named(d.requires, es, "Requires"@)
    &&& holds_the_named(d.requisite, es, "Requisite"@)
    &&& holds_the_named(d.binds_to, es, "BindsTo"@)
    &&& holds_the_named(d.part_of, es, "PartOf"@)
    &&& holds_the_named(d.upholds, es, "Upholds"@)
    &&& holds_the_named(d.conflicts, es, "Conflicts"@)
    &&& holds_the_named(d.on_failure, es, "OnFailure"@)
    &&& holds_the_named(d.on_success, es, "OnSuccess"@)
    &&& holds_the_named(d.propagates_reload_to, es, "PropagatesReloadTo"@)
    &&& holds_the_named(d.reload_propagated_from, es, "ReloadPropagatedFrom"@)
    &&& holds_the_named(d.propagates_stop_to, es, "PropagatesStopTo"@)
    &&& holds_the_named(d.stop_propagated_from, es, "StopPropagatedFrom"@)
    &&& holds_the_named(d.joins_namespace_of, es, "JoinsNamespaceOf"@)
}

/// Each text of the unit is the last that its own directive gives.
pub open spec fn texts_are_given(s: UnitView, es: Seq<EntryView>) -> bool {
    &&& s.description == match entries::last_of(es, "Description"@) {
        Some(v) => v,
        None => seq![],
    }
    &&& s.documentation == entries::words_of(entries::values_of(es, "Documentation"@))
    &&& s.on_failure_job_mode == entries::last_of(es, "OnFailureJobMode"@)
    &&& s.collect_mode == entries::last_of(es, "CollectMode"@)
    &&& s.failure_action == entries::last_of(es, "FailureAction"@)
    &&& s.success_action == entries::last_of(es, "SuccessAction"@)
    &&& s.reboot_argument == entries::last_of(es, "RebootArgument"@)
    &&& s.source_path == entries::last_of(es, "SourcePath"@)
    &&& s.job_timeout_sec == match entries::last_of(es, "JobTimeoutSec"@) {
        Some(v) => Some(duration::duration_of(v, 1)->Ok_0),
        None => None,
    }
    &&& s.job_running_timeout_sec == match entries::last_of(es, "JobRunningTimeoutSec"@) {
        Some(v) => Some(duration::duration_of(v, 1)->Ok_0),
        None => None,
    }
}

/// Each switch of the unit is the last that its own directive gives.
pub open spec fn switches_are_given(s: UnitView, es: Seq<EntryView>) -> bool {
    &&& s.default_dependencies == match entries::last_of(es, "DefaultDependencies"@) {
        Some(v) => condition::bool_of(v)->Some_0,
        None => true,
    }
    &&& s.stop_when_unneeded == match entries::last_of(es, "StopWhenUnneeded"@) {
        Some(v) => condition::bool_of(v)->Some_0,
        None => false,
    }
    &&& s.refuse_manual_start == match entries::last_of(es, "RefuseManualStart"@) {
        Some(v) => condition::bool_of(v)->Some_0,
        None => false,
    }
    &&& s.refuse_manual_stop == match entries::last_of(es, "RefuseManualStop"@) {
        Some(v) => condition::bool_of(v)->Some_0,
        None => false,
    }
    &&& s.allow_isolate == match entries::last_of(es, "AllowIsolate"@) {
        Some(v) => condition::bool_of(v)->Some_0,
        None => false,
    }
    &&& s.ignore_on_isolate == match entries::last_of(es, "IgnoreOnIsolate"@) {
        Some(v) => condition::bool_of(v)->Some_0,
        None => false,
    }
}

/// The conditions and the assertions are those of their own directives, in order.
pub open spec fn conditions_are_given(s: UnitView, es: Seq<EntryView>) -> bool {
    &&& s.conditions.conditions == conditions_of(es, "Condition"@)
    &&& s.conditions.asserts == conditions_of(es, "Assert"@)
}

/// A unit of which nothing is known yet.
spec fn is_blank(m: UnitView) -> bool {
    &&& m.deps == deps::no_deps()
    &&& m.conditions == condition::no_conditions()
    &&& m.install == install::empty_install()
    &&& m.description == Seq::<char>::empty()
    &&& m.documentation == Seq::<Seq<char>>::empty()
    &&& m.on_failure_job_mode == None::<Seq<char>>
    &&& m.collect_mode == None::<Seq<char>>
    &&& m.failure_action == None::<Seq<char>>
    &&& m.success_action == None::<Seq<char>>
    &&& m.reboot_argument == None::<Seq<char>>
    &&& m.source_path == None::<Seq<char>>
    &&& m.job_timeout_sec == None::<SdDuration>
    &&& m.job_running_timeout_sec == None::<SdDuration>
    &&& m.default_dependencies == true
    &&& m.stop_when_unneeded == false
    &&& m.refuse_manual_start == false
    &&& m.refuse_manual_stop == false
    &&& m.allow_isolate == false
    &&& m.ignore_on_isolate == false
}

proof fn lemma_deps_fold(d: DepsView, n: DepsView, es: Seq<EntryView>)
    requires
        es.len() > 0,
        deps_are_given(d, es.drop_last()),
        n.after == with_entry(d.after, es.last(), "After"@),
        n.before == with_entry(d.before, es.last(), "Before"@),
        n.wants == with_entry(d.wants, es.last(), "Wants"@),
        n.requires == with_entry(d.requires, es.last(), "Requires"@),
        n.requisite == with_entry(d.requisite, es.last(), "Requisite"@),
        n.binds_to == with_entry(d.binds_to, es.last(), "BindsTo"@),
        n.part_of == with_entry(d.part_of, es.last(), "PartOf"@),
        n.upholds == with_entry(d.upholds, es.last(), "Upholds"@),
        n.conflicts == with_entry(d.conflicts, es.last(), "Conflicts"@),
        n.on_failure == with_entry(d.on_failure, es.last(), "OnFailure"@),
        n.on_success == with_entry(d.on_success, es.last(), "OnSuccess"@),
        n.propagates_reload_to == with_entry(d.propagates_reload_to, es.last(), "PropagatesReloadTo"@),
        n.reload_propagated_from == with_entry(d.reload_propagated_from, es.last(), "ReloadPropagatedFrom"@),
        n.propagates_stop_to == with_entry(d.propagates_stop_to, es.last(), "PropagatesStopTo"@),
        n.stop_propagated_from == with_entry(d.stop_propagated_from, es.last(), "StopPropagatedFrom"@),
        n.joins_namespace_of == with_entry(d.joins_namespace_of, es.last(), "JoinsNamespaceOf"@),
    ensures
        deps_are_given(n, es),
{
    lemma_with_entry(d.after, es, "After"@);
    lemma_with_entry(d.before, es, "Before"@);
    lemma_with_entry(d.wants, es, "Wants"@);
    lemma_with_entry(d.requires, es, "Requires"@);
    lemma_with_entry(d.requisite, es, "Requisite"@);
    lemma_with_entry(d.binds_to, es, "BindsTo"@);
    lemma_with_entry(d.part_of, es, "PartOf"@);
    lemma_with_entry(d.upholds, es, "Upholds"@);
    lemma_with_entry(d.conflicts, es, "Conflicts"@);
    lemma_with_entry(d.on_failure, es, "OnFailure"@);
    lemma_with_entry(d.on_success, es, "OnSuccess"@);
    lemma_with_entry(d.propagates_reload_to, es, "PropagatesReloadTo"@);
    lemma_with_entry(d.reload_propagated_from, es, "ReloadPropagatedFrom"@);
    lemma_with_entry(d.propagates_stop_to, es, "PropagatesStopTo"@);
    lemma_with_entry(d.stop_propagated_from, es, "StopPropagatedFrom"@);
    lemma_with_entry(d.joins_namespace_of, es, "JoinsNamespaceOf"@);
}

proof fn lemma_fold(path: Seq<char>, es: Seq<EntryView>, m: UnitView, ws: Seq<ParseWarningView>)
    requires
        is_blank(m),
        spec::unit_entries(path, es, m, ws) is Ok,
    ensures
        ({
            let n = spec::unit_entries(path, es, m, ws)->Ok_0.0;
            &&& deps_are_given(n.deps, es)
            &&& texts_are_given(n, es)
            &&& switches_are_given(n, es)
            &&& conditions_are_given(n, es)
            &&& n.install == m.install
        }),
    decreases es.len(),
{
    if es.len() > 0 {
        lemma_last(path, es, m, ws);
        let before = es.drop_last();
        let (n, vs) = spec::unit_entries(path, before, m, ws)->Ok_0;
        lemma_fold(path, before, m, ws);
        lemma_step(path, n, vs, es.last());
        entries::lemma_one_more(entries::values_of(before, "Documentation"@), es.last().value);
        lemma_deps_fold(n.deps, spec::unit_step(path, n, vs, es.last())->Ok_0.0.deps, es);
    }
}

// ---------------------------------------------------------------------
// Installation
// ---------------------------------------------------------------------

/// Each directive of `[Install]` is the one that its own entries give.
pub open spec fn install_is_given(s: InstallView, es: Seq<EntryView>) -> bool {
    &&& holds_the_named(s.wanted_by, es, "WantedBy"@)
    &&& holds_the_named(s.required_by, es, "RequiredBy"@)
    &&& holds_the_named(s.upheld_by, es, "UpheldBy"@)
    &&& holds_the_named(s.also, es, "Also"@)
    &&& holds_the_named(s.alias, es, "Alias"@)
    &&& s.default_instance == entries::last_of(es, "DefaultInstance"@)
}

proof fn lemma_install_step(path: Seq<char>, m: UnitView, ws: Seq<ParseWarningView>, e: EntryView)
    ensures
        ({
            let n = spec::install_step(path, m, ws, e).0;
            &&& n == (UnitView { install: n.install, ..m })
            &&& n.install.wanted_by == with_entry(m.install.wanted_by, e, "WantedBy"@)
            &&& n.install.required_by == with_entry(m.install.required_by, e, "RequiredBy"@)
            &&& n.install.upheld_by == with_entry(m.install.upheld_by, e, "UpheldBy"@)
            &&& n.install.also == with_entry(m.install.also, e, "Also"@)
            &&& n.install.alias == with_entry(m.install.alias, e, "Alias"@)
            &&& n.install.default_instance == if e.key == "DefaultInstance"@ {
                Some(e.value)
            } else {
                m.install.default_instance
            }
        }),
{
    spelling::lemma_install_directive_marks();
}

proof fn lemma_install_last(
    path: Seq<char>,
    es: Seq<EntryView>,
    m: UnitView,
    ws: Seq<ParseWarningView>,
)
    requires
        es.len() > 0,
    ensures
        ({
            let (n, vs) = spec::install_entries(path, es.drop_last(), m, ws);
            spec::install_entries(path, es, m, ws) == spec::install_step(path, n, vs, es.last())
        }),
    decreases es.len(),
{
    let (n, vs) = spec::install_step(path, m, ws, es[0]);
    let rest = es.skip(1);
    if rest.len() == 0 {
        assert(es.drop_last() =~= seq![]);
        assert(spec::install_entries(path, rest, n, vs) == (n, vs));
        assert(spec::install_entries(path, es.drop_last(), m, ws) == (m, ws));
    } else {
        lemma_install_last(path, rest, n, vs);
        assert(rest.last() == es.last());
        assert(es.drop_last().skip(1) =~= rest.drop_last());
        assert(es.drop_last()[0] == es[0]);
    }
}

proof fn lemma_install_fold(
    path: Seq<char>,
    es: Seq<EntryView>,
    m: UnitView,
    ws: Seq<ParseWarningView>,
)
    requires
        m.install == install::empty_install(),
    ensures
        ({
            let n = spec::install_entries(path, es, m, ws).0;
            &&& n == (UnitView { install: n.install, ..m })
            &&& install_is_given(n.install, es)
        }),
    decreases es.len(),
{
    if es.len() > 0 {
        lemma_install_last(path, es, m, ws);
        let before = es.drop_last();
        let (n, vs) = spec::install_entries(path, before, m, ws);
        lemma_install_fold(path, before, m, ws);
        lemma_install_step(path, n, vs, es.last());
        lemma_with_entry(n.install.wanted_by, es, "WantedBy"@);
        lemma_with_entry(n.install.required_by, es, "RequiredBy"@);
        lemma_with_entry(n.install.upheld_by, es, "UpheldBy"@);
        lemma_with_entry(n.install.also, es, "Also"@);
        lemma_with_entry(n.install.alias, es, "Alias"@);
    }
}

// ---------------------------------------------------------------------
// Files
// ---------------------------------------------------------------------

proof fn lemma_of_file(
    name: NameView,
    path: Seq<char>,
    source: Seq<char>,
    sections: Seq<SectionView>,
)
    requires
        spec::unit_of_sections(name, path, source, sections) is Ok,
    ensures
        ({
            let u = spec::unit_of_sections(name, path, source, sections)->Ok_0.0;
            let es = ini::entries_or_none(sections, "Unit"@);
            &&& deps_are_given(u.deps, es)
            &&& texts_are_given(u, es)
            &&& switches_are_given(u, es)
            &&& conditions_are_given(u, es)
            &&& install_is_given(u.install, ini::entries_or_none(sections, "Install"@))
        }),
{
    let m0 = UnitView { raw: sections, source, ..spec::empty_unit(name) };
    let es = ini::entries_or_none(sections, "Unit"@);
    reveal_strlit("");
    lemma_fold(path, es, m0, seq![]);
    let (m, ws) = spec::unit_entries(path, es, m0, seq![])->Ok_0;
    lemma_install_fold(path, ini::entries_or_none(sections, "Install"@), m, ws);
}

/// Each set of dependencies of a unit holds just the names that the entries of
/// `[Unit]` with that very name mention.
pub proof fn dependencies_are_those_given(
    name: NameView,
    path: Seq<char>,
    source: Seq<char>,
    sections: Seq<SectionView>,
)
    requires
        spec::unit_of_sections(name, path, source, sections) is Ok,
    ensures
        ({
            let u = spec::unit_of_sections(name, path, source, sections)->Ok_0.0;
            deps_are_given(u.deps, ini::entries_or_none(sections, "Unit"@))
        }),
{
    lemma_of_file(name, path, source, sections);
}

/// Each text of a unit is the value of the last entry of `[Unit]` with that very
/// name; the documentation is all of its entries.
pub proof fn unit_texts_are_those_given(
    name: NameView,
    path: Seq<char>,
    source: Seq<char>,
    sections: Seq<SectionView>,
)
    requires
        spec::unit_of_sections(name, path, source, sections) is Ok,
    ensures
        ({
            let u = spec::unit_of_sections(name, path, source, sections)->Ok_0.0;
            texts_are_given(u, ini::entries_or_none(sections, "Unit"@))
        }),
{
    lemma_of_file(name, path, source, sections);
}

/// Each switch of a unit is that of the last entry of `[Unit]` with that very name,
/// and has its default where there is none.
pub proof fn unit_switches_are_those_given(
    name: NameView,
    path: Seq<char>,
    source: Seq<char>,
    sections: Seq<SectionView>,
)
    requires
        spec::unit_of_sections(name, path, source, sections) is Ok,
    ensures
        ({
            let u = spec::unit_of_sections(name, path, source, sections)->Ok_0.0;
            switches_are_given(u, ini::entries_or_none(sections, "Unit"@))
        }),
{
    lemma_of_file(name, path, source, sections);
}

/// The conditions of a unit are, in order, those of its `Condition` entries, and the
/// assertions those of its `Assert` entries.
pub proof fn conditions_are_those_given(
    name: NameView,
    path: Seq<char>,
    source: Seq<char>,
    sections: Seq<SectionView>,
)
    requires
        spec::unit_of_sections(name, path, source, sections) is Ok,
    ensures
        ({
            let u = spec::unit_of_sections(name, path, source, sections)->Ok_0.0;
            conditions_are_given(u, ini::entries_or_none(sections, "Unit"@))
        }),
{
    lemma_of_file(name, path, source, sections);
}

/// What `[Install]` says of a unit is what the entries with that very name mention.
pub proof fn installation_is_that_given(
    name: NameView,
    path: Seq<char>,
    source: Seq<char>,
    sections: Seq<SectionView>,
)
    requires
        spec::unit_of_sections(name, path, source, sections) is Ok,
    ensures
        ({
            let u = spec::unit_of_sections(name, path, source, sections)->Ok_0.0;
            install_is_given(u.install, ini::entries_or_none(sections, "Install"@))
        }),
{
    lemma_of_file(name, path, source, sections);
}

} // verus!
