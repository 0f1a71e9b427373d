//! Directives that are not known here, or need a Linux kernel, never keep a
//! unit from loading.

use crate::unit::error;
use crate::unit::error::{ParseErrorView, ParseWarningView};
use crate::unit::ini::EntryView;
use crate::unit::linux_only;
use crate::unit::parse_path;
use crate::unit::parse_service;
use crate::unit::parse_socket;
use crate::unit::parse_timer;
use crate::unit::path_unit::PathView;
use crate::unit::service::ServiceView;
use crate::unit::socket::SocketView;
use crate::unit::spec;
use crate::unit::spec::UnitView;
use crate::unit::timer::TimerView;
use vstd::prelude::*;

verus! {

/// Every directive that needs a Linux kernel is kept verbatim, with a warning,
/// and none is an error, whatever its value.
pub proof fn linux_only_directives_warn(
    path: Seq<char>,
    m: ServiceView,
    ws: Seq<ParseWarningView>,
    e: EntryView,
)
    requires
        linux_only::linux_only_key("Service"@, e.key),
    ensures
        parse_service::service_step(path, m, ws, e) == Ok::<
            (ServiceView, Seq<ParseWarningView>),
            ParseErrorView,
        >(
            (
                parse_service::keep_verbatim(m, e),
                ws.push(error::linux_only_warning(Some(path), e.line, "Service"@, e.key)),
            ),
        ),
{
}

/// The same goes for those of a socket, except that a value that can be read
/// is taken as a setting as well.
pub proof fn linux_only_socket_directives_warn(
    path: Seq<char>,
    m: SocketView,
    ws: Seq<ParseWarningView>,
    e: EntryView,
)
    requires
        parse_socket::socket_linux_key(e.key),
    ensures
        parse_socket::socket_step(path, m, ws, e) == Ok::<
            (SocketView, Seq<ParseWarningView>),
            ParseErrorView,
        >(
            (
                parse_socket::keep_verbatim(
                    parse_socket::socket_linux_setting(m, e.key, e.value),
                    e,
                ),
                ws.push(error::linux_only_warning(Some(path), e.line, "Socket"@, e.key)),
            ),
        ),
{
}

/// The same goes for those of `[Unit]`, whose value is taken as well.
pub proof fn linux_only_unit_directives_warn(
    path: Seq<char>,
    m: UnitView,
    ws: Seq<ParseWarningView>,
    e: EntryView,
)
    requires
        spec::unit_linux_key(e.key),
    ensures
        spec::unit_directive(m, e.key, e.value) matches Some(Ok(n)) && spec::unit_step(
            path,
            m,
            ws,
            e,
        ) == Ok::<(UnitView, Seq<ParseWarningView>), ParseErrorView>(
            (n, ws.push(error::linux_only_warning(Some(path), e.line, "Unit"@, e.key))),
        ),
{
}

/// An unknown directive is a warning in every section, and never an error.
pub proof fn unknown_directives_warn(
    path: Seq<char>,
    unit: UnitView,
    service: ServiceView,
    socket: SocketView,
    timer: TimerView,
    watched: PathView,
    ws: Seq<ParseWarningView>,
    e: EntryView,
)
    ensures
        spec::unit_directive(unit, e.key, e.value) is None ==> spec::unit_step(path, unit, ws, e)
            == Ok::<(UnitView, Seq<ParseWarningView>), ParseErrorView>(
            (unit, ws.push(error::unknown_warning(Some(path), e.line, "Unit"@, e.key))),
        ),
        spec::install_directive(unit.install, e.key, e.value) is None ==> spec::install_step(
            path,
            unit,
            ws,
            e,
        ) == (unit, ws.push(error::unknown_warning(Some(path), e.line, "Install"@, e.key))),
        parse_service::service_directive(service, e.key, e.value) is None
            && !linux_only::linux_only_key("Service"@, e.key) && !linux_only::passthrough_key(
            "Service"@,
            e.key,
        ) ==> parse_service::service_step(path, service, ws, e) == Ok::<
            (ServiceView, Seq<ParseWarningView>),
            ParseErrorView,
        >(
            (
                parse_service::keep_verbatim(service, e),
                ws.push(error::unknown_warning(Some(path), e.line, "Service"@, e.key)),
            ),
        ),
        parse_socket::socket_directive(socket, e.key, e.value) is None
            && !parse_socket::socket_linux_key(e.key) ==> parse_socket::socket_step(
            path,
            socket,
            ws,
            e,
        ) == Ok::<(SocketView, Seq<ParseWarningView>), ParseErrorView>(
            (
                parse_socket::keep_verbatim(socket, e),
                ws.push(error::unknown_warning(Some(path), e.line, "Socket"@, e.key)),
            ),
        ),
        parse_timer::timer_directive(timer, e.key, e.value) is None ==> parse_timer::timer_step(
            path,
            timer,
            ws,
            e,
        ) == Ok::<(TimerView, Seq<ParseWarningView>), ParseErrorView>(
            (timer, ws.push(error::unknown_warning(Some(path), e.line, "Timer"@, e.key))),
        ),
        parse_path::path_directive(watched, e.key, e.value) is None ==> parse_path::path_step(
            path,
            watched,
            ws,
            e,
        ) == Ok::<(PathView, Seq<ParseWarningView>), ParseErrorView>(
            (watched, ws.push(error::unknown_warning(Some(path), e.line, "Path"@, e.key))),
        ),
{
}

// ---------------------------------------------------------------------
// Whole sections
// ---------------------------------------------------------------------

/// Whether two outcomes of a directive agree on whether it is known, and
/// whether it is wrong.
pub open spec fn agree(
    a: Option<Result<ServiceView, Seq<char>>>,
    b: Option<Result<ServiceView, Seq<char>>>,
) -> bool {
    match (a, b) {
        (None, None) => true,
        (Some(Err(x)), Some(Err(y))) => x == y,
        (Some(Ok(_)), Some(Ok(_))) => true,
        _ => false,
    }
}

proof fn lemma_text(m: ServiceView, n: ServiceView, k: Seq<char>, v: Seq<char>)
    ensures
        agree(parse_service::service_text(m, k, v), parse_service::service_text(n, k, v)),
{
}

proof fn lemma_list(m: ServiceView, n: ServiceView, k: Seq<char>, v: Seq<char>)
    ensures
        agree(parse_service::service_list(m, k, v), parse_service::service_list(n, k, v)),
{
}

proof fn lemma_command(m: ServiceView, n: ServiceView, k: Seq<char>, v: Seq<char>)
    ensures
        agree(parse_service::service_command(m, k, v), parse_service::service_command(n, k, v)),
{
}

proof fn lemma_switch(m: ServiceView, n: ServiceView, k: Seq<char>, v: Seq<char>)
    ensures
        agree(parse_service::service_switch(m, k, v), parse_service::service_switch(n, k, v)),
{
}

proof fn lemma_duration(m: ServiceView, n: ServiceView, k: Seq<char>, v: Seq<char>)
    ensures
        agree(parse_service::service_duration(m, k, v), parse_service::service_duration(n, k, v)),
{
}

proof fn lemma_limit(m: ServiceView, n: ServiceView, k: Seq<char>, v: Seq<char>)
    ensures
        agree(parse_service::service_limit(m, k, v), parse_service::service_limit(n, k, v)),
{
}

proof fn lemma_choice(m: ServiceView, n: ServiceView, k: Seq<char>, v: Seq<char>)
    ensures
        agree(parse_service::service_choice(m, k, v), parse_service::service_choice(n, k, v)),
{
}

proof fn lemma_directive(m: ServiceView, n: ServiceView, k: Seq<char>, v: Seq<char>)
    ensures
        agree(parse_service::service_directive(m, k, v), parse_service::service_directive(n, k, v)),
{
    lemma_text(m, n, k, v);
    lemma_list(m, n, k, v);
    lemma_command(m, n, k, v);
    lemma_switch(m, n, k, v);
    lemma_duration(m, n, k, v);
    lemma_limit(m, n, k, v);
    lemma_choice(m, n, k, v);
}

/// Whether a section can be read does not depend on what came before it.
proof fn lemma_entries(
    path: Seq<char>,
    es: Seq<EntryView>,
    m: ServiceView,
    n: ServiceView,
    ws: Seq<ParseWarningView>,
    vs: Seq<ParseWarningView>,
)
    ensures
        parse_service::service_entries(path, es, m, ws) is Ok == parse_service::service_entries(
            path,
            es,
            n,
            vs,
        ) is Ok,
    decreases es.len(),
{
    if es.len() > 0 {
        let e = es[0];
        lemma_directive(m, n, e.key, e.value);
        if let Ok((a, x)) = parse_service::service_step(path, m, ws, e) {
            if let Ok((b, y)) = parse_service::service_step(path, n, vs, e) {
                lemma_entries(path, es.skip(1), a, b, x, y);
            }
        }
    }
}

/// A directive that needs a Linux kernel, or is not known, changes nothing
/// about whether a `[Service]` section can be read, wherever it stands: the
/// unit still loads.
pub proof fn unsupported_directives_do_not_stop_loading(
    path: Seq<char>,
    es: Seq<EntryView>,
    k: int,
    e: EntryView,
    m: ServiceView,
    ws: Seq<ParseWarningView>,
)
    requires
        0 <= k <= es.len(),
        linux_only::linux_only_key("Service"@, e.key) || linux_only::passthrough_key(
            "Service"@,
            e.key,
        ) || parse_service::service_directive(m, e.key, e.value) is None,
    ensures
        parse_service::service_entries(path, es.insert(k, e), m, ws) is Ok
            == parse_service::service_entries(path, es, m, ws) is Ok,
    decreases k,
{
    let all = es.insert(k, e);
    if k == 0 {
        assert(all[0] == e);
        assert(all.skip(1) =~= es);
        if let Ok((n, vs)) = parse_service::service_step(path, m, ws, e) {
            lemma_entries(path, es, n, m, vs, ws);
        }
    } else {
        assert(all[0] == es[0]);
        assert(all.skip(1) =~= es.skip(1).insert(k - 1, e));
        if let Ok((n, vs)) = parse_service::service_step(path, m, ws, es[0]) {
            lemma_directive(m, n, e.key, e.value);
            unsupported_directives_do_not_stop_loading(path, es.skip(1), k - 1, e, n, vs);
        }
    }
}

} // verus!
