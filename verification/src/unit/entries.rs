//! What the entries of a section give, directive by directive.

use crate::text;
use crate::unit::calendar;
use crate::unit::calendar::CalendarView;
use crate::unit::condition;
use crate::unit::env;
use crate::unit::env::EnvironmentFileView;
use crate::unit::exec;
use crate::unit::exec::ExecView;
use crate::unit::ini::EntryView;
use crate::unit::parse_service;
use crate::unit::service::ExitStatusView;
use vstd::prelude::*;

verus! {

/// The values of the entries with one of two keys, in order.
pub open spec fn values_of_either(es: Seq<EntryView>, key: Seq<char>, other: Seq<char>) -> Seq<
    Seq<char>,
>
    decreases es.len(),
{
    if es.len() == 0 {
        seq![]
    } else if es.last().key == key || es.last().key == other {
        values_of_either(es.drop_last(), key, other).push(es.last().value)
    } else {
        values_of_either(es.drop_last(), key, other)
    }
}

/// The values of the entries with the key, in order.
pub open spec fn values_of(es: Seq<EntryView>, key: Seq<char>) -> Seq<Seq<char>>
    decreases es.len(),
{
    if es.len() == 0 {
        seq![]
    } else if es.last().key == key {
        values_of(es.drop_last(), key).push(es.last().value)
    } else {
        values_of(es.drop_last(), key)
    }
}

/// The value of the last entry with the key.
pub open spec fn last_of(es: Seq<EntryView>, key: Seq<char>) -> Option<Seq<char>> {
    let vs = values_of(es, key);
    if vs.len() == 0 {
        None
    } else {
        Some(vs.last())
    }
}

/// The value of the last entry with one of two keys.
pub open spec fn last_of_either(es: Seq<EntryView>, key: Seq<char>, other: Seq<char>) -> Option<
    Seq<char>,
> {
    let vs = values_of_either(es, key, other);
    if vs.len() == 0 {
        None
    } else {
        Some(vs.last())
    }
}

/// The commands that the values are, in order.
pub open spec fn commands_of(vs: Seq<Seq<char>>) -> Seq<ExecView>
    decreases vs.len(),
{
    if vs.len() == 0 {
        seq![]
    } else {
        commands_of(vs.drop_last()).push(exec::command_of(vs.last())->Ok_0)
    }
}

/// The words of the values, in order.
pub open spec fn words_of(vs: Seq<Seq<char>>) -> Seq<Seq<char>>
    decreases vs.len(),
{
    if vs.len() == 0 {
        seq![]
    } else {
        words_of(vs.drop_last()) + text::items(vs.last(), true)
    }
}

/// The exit statuses that the values list, in order.
pub open spec fn statuses_of(vs: Seq<Seq<char>>) -> Seq<ExitStatusView>
    decreases vs.len(),
{
    if vs.len() == 0 {
        seq![]
    } else {
        statuses_of(vs.drop_last()) + parse_service::exit_list_of(
            text::items(vs.last(), true),
        )->Ok_0
    }
}

/// The variables that the values set, in order.
pub open spec fn variables_of(vs: Seq<Seq<char>>) -> Seq<(Seq<char>, Seq<char>)>
    decreases vs.len(),
{
    if vs.len() == 0 {
        seq![]
    } else {
        variables_of(vs.drop_last()) + env::environment_of(vs.last())->Ok_0
    }
}

/// The environment files that the values name, in order.
pub open spec fn files_of(vs: Seq<Seq<char>>) -> Seq<EnvironmentFileView>
    decreases vs.len(),
{
    if vs.len() == 0 {
        seq![]
    } else {
        files_of(vs.drop_last()).push(env::environment_file_of(vs.last()))
    }
}

/// The calendar events that the values are, in order.
pub open spec fn events_of(vs: Seq<Seq<char>>) -> Seq<CalendarView>
    decreases vs.len(),
{
    if vs.len() == 0 {
        seq![]
    } else {
        events_of(vs.drop_last()).push(calendar::calendar_of(vs.last())->Ok_0)
    }
}

/// The last value of the entries with the key that reads as a switch; off where
/// there is none.
pub open spec fn switch_of(es: Seq<EntryView>, key: Seq<char>) -> bool
    decreases es.len(),
{
    if es.len() == 0 {
        false
    } else if es.last().key == key && condition::bool_of(es.last().value) is Some {
        condition::bool_of(es.last().value)->Some_0
    } else {
        switch_of(es.drop_last(), key)
    }
}

/// Each entry with the key adds its value at the end, and no other adds any.
pub proof fn values_come_in_order(es: Seq<EntryView>, e: EntryView, key: Seq<char>, other: Seq<char>)
    ensures
        values_of(es.push(e), key) == if e.key == key {
            values_of(es, key).push(e.value)
        } else {
            values_of(es, key)
        },
        values_of_either(es.push(e), key, other) == if e.key == key || e.key == other {
            values_of_either(es, key, other).push(e.value)
        } else {
            values_of_either(es, key, other)
        },
{
    assert(es.push(e).drop_last() =~= es);
}

/// One more value adds its own share at the end.
pub(crate) proof fn lemma_one_more(vs: Seq<Seq<char>>, v: Seq<char>)
    ensures
        commands_of(vs.push(v)) == commands_of(vs).push(exec::command_of(v)->Ok_0),
        words_of(vs.push(v)) == words_of(vs) + text::items(v, true),
        statuses_of(vs.push(v)) == statuses_of(vs) + parse_service::exit_list_of(
            text::items(v, true),
        )->Ok_0,
        variables_of(vs.push(v)) == variables_of(vs) + env::environment_of(v)->Ok_0,
        files_of(vs.push(v)) == files_of(vs).push(env::environment_file_of(v)),
        events_of(vs.push(v)) == events_of(vs).push(calendar::calendar_of(v)->Ok_0),
{
    assert(vs.push(v).drop_last() =~= vs);
}

} // verus!
