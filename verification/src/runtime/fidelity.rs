//! Directives that need a Linux kernel are ignored, yet stay in the `show`
//! output of a unit.

use crate::runtime::properties;
use crate::runtime::state::StatusView;
use crate::text;
use crate::unit::error::ParseWarningView;
use crate::unit::ini;
use crate::unit::ini::{EntryView, SectionView};
use crate::unit::linux_only;
use crate::unit::name::NameView;
use crate::unit::parse_service;
use crate::unit::parse_socket;
use crate::unit::service::ServiceView;
use crate::unit::socket::SocketView;
use crate::unit::spec;
use crate::unit::spec::UnitView;
use vstd::prelude::*;

verus! {

/// Whether an entry is the last with its key.
pub open spec fn is_last(es: Seq<EntryView>, k: int) -> bool {
    forall|j: int| k < j < es.len() ==> (#[trigger] es[j]).key != es[k].key
}

/// Directives kept verbatim that go on from others, none of the new ones with
/// a key.
spec fn goes_on_without(
    a: Seq<(Seq<char>, Seq<char>)>,
    b: Seq<(Seq<char>, Seq<char>)>,
    key: Seq<char>,
) -> bool {
    &&& a.len() <= b.len()
    &&& b.take(a.len() as int) == a
    &&& forall|j: int| a.len() <= j < b.len() ==> (#[trigger] b[j]).0 != key
}

/// Whether the last directive kept under a key has a value.
spec fn ends_with_value(
    b: Seq<(Seq<char>, Seq<char>)>,
    key: Seq<char>,
    value: Seq<char>,
) -> bool {
    exists|i: int|
        0 <= i < b.len() && #[trigger] b[i] == (key, value) && forall|j: int|
            i < j < b.len() ==> (#[trigger] b[j]).0 != key
}

proof fn lemma_goes_on(
    a: Seq<(Seq<char>, Seq<char>)>,
    b: Seq<(Seq<char>, Seq<char>)>,
    c: Seq<(Seq<char>, Seq<char>)>,
    key: Seq<char>,
)
    requires
        goes_on_without(a, b, key),
        goes_on_without(b, c, key),
    ensures
        goes_on_without(a, c, key),
{
    assert(c.take(a.len() as int) =~= b.take(a.len() as int));
    assert forall|j: int| a.len() <= j < c.len() implies (#[trigger] c[j]).0 != key by {
        if j < b.len() {
            assert(c.take(b.len() as int)[j] == b[j]);
        }
    }
}

proof fn lemma_stays_last(
    a: Seq<(Seq<char>, Seq<char>)>,
    b: Seq<(Seq<char>, Seq<char>)>,
    key: Seq<char>,
    value: Seq<char>,
)
    requires
        a.len() > 0,
        a.last() == (key, value),
        goes_on_without(a, b, key),
    ensures
        ends_with_value(b, key, value),
{
    let i = a.len() - 1;
    assert(b.take(a.len() as int)[i] == b[i]);
    assert(b[i] == (key, value));
}

// ---------------------------------------------------------------------
// Names
// ---------------------------------------------------------------------

/// What the names of properties have in common, and those of directives that
/// need a Linux kernel lack.
spec fn looks_own(key: Seq<char>) -> bool {
    ||| key.len() <= 2
    ||| key[0] == 'J'
    ||| key[0] == 'A' && (key[2] == 'c' || key[2] == 't')
    ||| key[0] == 'D' && (key[2] == 'c' || key[2] == 'f' || key[2] == 's')
    ||| key[0] == 'E' && key[2] == 'e'
    ||| key[0] == 'F' && key[2] == 'a'
    ||| key[0] == 'G' && key[2] == 'o'
    ||| key[0] == 'L' && key[2] == 'a'
    ||| key[0] == 'M' && key[2] == 'k'
    ||| key[0] == 'N' && key[2] == 'm'
    ||| key[0] == 'O' && key[2] == 'C'
    ||| key[0] == 'P' && (key[2] == 'D' || key[2] == 'r')
    ||| key[0] == 'R' && (key[2] == 'f' || key[2] == 'm' || key[2] == 'q' || (key[2] == 's' && key.len() == 7))
    ||| key[0] == 'S' && (key[2] == 'b' || key[2] == 'o' || key[2] == 'r')
    ||| key[0] == 'T' && ((key[2] == 'm' && key.len() <= 16) || key[2] == 'p')
    ||| key[0] == 'U' && (key[2] == 'e' || key[2] == 'i')
    ||| key[0] == 'W' && key[2] == 'n'
}

proof fn lemma_own_look(key: Seq<char>)
    requires
        properties::is_own_key(key),
    ensures
        looks_own(key),
        key[0] != 'J',
{
    reveal_strlit("Id");
    reveal_strlit("Names");
    reveal_strlit("Description");
    reveal_strlit("LoadState");
    reveal_strlit("ActiveState");
    reveal_strlit("SubState");
    reveal_strlit("FragmentPath");
    reveal_strlit("DefaultDependencies");
    reveal_strlit("StopWhenUnneeded");
    reveal_strlit("RefuseManualStart");
    reveal_strlit("RefuseManualStop");
    reveal_strlit("Documentation");
    reveal_strlit("Type");
    reveal_strlit("Restart");
    reveal_strlit("RemainAfterExit");
    reveal_strlit("PIDFile");
    reveal_strlit("User");
    reveal_strlit("Group");
    reveal_strlit("ExecStart");
    reveal_strlit("ExecStop");
    reveal_strlit("TimeoutStartUSec");
    reveal_strlit("TimeoutStopUSec");
    reveal_strlit("OnCalendar");
    reveal_strlit("Persistent");
    reveal_strlit("Unit");
    reveal_strlit("MakeDirectory");
    reveal_strlit("Accept");
    reveal_strlit("Service");
    reveal_strlit("WantedBy");
    reveal_strlit("RequiredBy");
}

proof fn lemma_cgroup_look(key: Seq<char>)
    requires
        linux_only::cgroup_key(key),
    ensures
        !looks_own(key),
{
    reveal_strlit("CPUAccounting");
    reveal_strlit("CPUWeight");
    reveal_strlit("StartupCPUWeight");
    reveal_strlit("CPUShares");
    reveal_strlit("CPUQuota");
    reveal_strlit("CPUQuotaPeriodSec");
    reveal_strlit("AllowedCPUs");
    reveal_strlit("AllowedMemoryNodes");
    reveal_strlit("MemoryAccounting");
    reveal_strlit("MemoryMin");
    reveal_strlit("MemoryLow");
    reveal_strlit("MemoryHigh");
    reveal_strlit("MemoryMax");
    reveal_strlit("MemorySwapMax");
    reveal_strlit("MemoryLimit");
    reveal_strlit("TasksAccounting");
    reveal_strlit("TasksMax");
    reveal_strlit("IOAccounting");
    reveal_strlit("IOWeight");
    reveal_strlit("IODeviceWeight");
    reveal_strlit("IOReadBandwidthMax");
    reveal_strlit("IOWriteBandwidthMax");
    reveal_strlit("IOReadIOPSMax");
    reveal_strlit("IOWriteIOPSMax");
    reveal_strlit("BlockIOAccounting");
    reveal_strlit("BlockIOWeight");
    reveal_strlit("IPAccounting");
    reveal_strlit("IPAddressAllow");
    reveal_strlit("IPAddressDeny");
    reveal_strlit("DeviceAllow");
    reveal_strlit("DevicePolicy");
    reveal_strlit("Slice");
    reveal_strlit("Delegate");
}

proof fn lemma_namespace_look(key: Seq<char>)
    requires
        linux_only::namespace_key(key),
    ensures
        !looks_own(key),
{
    reveal_strlit("BindPaths");
    reveal_strlit("BindReadOnlyPaths");
    reveal_strlit("ReadWritePaths");
    reveal_strlit("InaccessiblePaths");
    reveal_strlit("TemporaryFileSystem");
    reveal_strlit("MountFlags");
    reveal_strlit("RootImage");
    reveal_strlit("NetworkNamespacePath");
    reveal_strlit("ProcSubset");
    reveal_strlit("RestrictNamespaces");
}

proof fn lemma_seccomp_look(key: Seq<char>)
    requires
        linux_only::seccomp_key(key),
    ensures
        !looks_own(key),
{
    reveal_strlit("SystemCallFilter");
    reveal_strlit("SystemCallErrorNumber");
    reveal_strlit("SystemCallArchitectures");
    reveal_strlit("SystemCallLog");
    reveal_strlit("RestrictAddressFamilies");
    reveal_strlit("RestrictRealtime");
    reveal_strlit("RestrictSUIDSGID");
    reveal_strlit("MemoryDenyWriteExecute");
    reveal_strlit("LockPersonality");
    reveal_strlit("NoNewPrivileges");
}

proof fn lemma_capability_look(key: Seq<char>)
    requires
        linux_only::capability_key(key),
    ensures
        !looks_own(key),
{
    reveal_strlit("CapabilityBoundingSet");
    reveal_strlit("AmbientCapabilities");
    reveal_strlit("SecureBits");
}

proof fn lemma_mac_look(key: Seq<char>)
    requires
        linux_only::mac_key(key),
    ensures
        !looks_own(key),
{
    reveal_strlit("SELinuxContext");
    reveal_strlit("AppArmorProfile");
    reveal_strlit("SmackProcessLabel");
}

proof fn lemma_other_look(key: Seq<char>)
    requires
        linux_only::other_key(key),
    ensures
        !looks_own(key),
{
    reveal_strlit("DynamicUser");
    reveal_strlit("PAMName");
    reveal_strlit("OOMScoreAdjust");
    reveal_strlit("OOMPolicy");
    reveal_strlit("KeyringMode");
}

proof fn lemma_sandbox_look(key: Seq<char>)
    requires
        linux_only::sandbox_prefix(key),
    ensures
        !looks_own(key),
{
    reveal_strlit("Private");
    reveal_strlit("Protect");
    reveal_strlit("ReadOnly");
    if text::begins_with(key, "ReadOnly"@) {
        assert(key.take(8)[0] == key[0] && key.take(8)[2] == key[2]);
    } else {
        assert(key.take(7)[0] == key[0] && key.take(7)[2] == key[2]);
    }
}

proof fn lemma_socket_look(key: Seq<char>)
    requires
        parse_socket::socket_linux_key(key),
    ensures
        !looks_own(key),
{
    reveal_strlit("PassCredentials");
    reveal_strlit("PassSecurity");
    reveal_strlit("BindToDevice");
    reveal_strlit("ListenNetlink");
    reveal_strlit("ListenMessageQueue");
    reveal_strlit("ListenUSBFunction");
}

/// No directive of a service or a socket that needs a Linux kernel has the name
/// of a property, or of such a directive of `[Unit]`.
proof fn lemma_names(key: Seq<char>)
    requires
        linux_only::linux_only_key("Service"@, key) || parse_socket::socket_linux_key(key),
    ensures
        !properties::is_own_key(key),
        !spec::unit_linux_key(key),
{
    if properties::is_own_key(key) || spec::unit_linux_key(key) {
        if properties::is_own_key(key) {
            lemma_own_look(key);
        } else {
            reveal_strlit("JoinsNamespaceOf");
        }
        assert(looks_own(key));
        if parse_socket::socket_linux_key(key) {
            lemma_socket_look(key);
        } else if linux_only::sandbox_prefix(key) {
            lemma_sandbox_look(key);
        } else if linux_only::cgroup_key(key) {
            lemma_cgroup_look(key);
        } else if linux_only::namespace_key(key) {
            lemma_namespace_look(key);
        } else if linux_only::seccomp_key(key) {
            lemma_seccomp_look(key);
        } else if linux_only::capability_key(key) {
            lemma_capability_look(key);
        } else if linux_only::mac_key(key) {
            lemma_mac_look(key);
        } else {
            lemma_other_look(key);
        }
    }
}

// ---------------------------------------------------------------------
// All units
// ---------------------------------------------------------------------

proof fn lemma_kept_in_unit(es: Seq<EntryView>)
    ensures
        forall|j: int|
            0 <= j < properties::kept_in_unit(es).len() ==> spec::unit_linux_key(
                (#[trigger] properties::kept_in_unit(es)[j]).0,
            ),
    decreases es.len(),
{
    if es.len() > 0 {
        let rest = properties::kept_in_unit(es.drop_last());
        let all = properties::kept_in_unit(es);
        lemma_kept_in_unit(es.drop_last());
        assert forall|j: int| 0 <= j < all.len() implies spec::unit_linux_key(
            (#[trigger] all[j]).0,
        ) by {
            if j < rest.len() {
                assert(all[j] == rest[j]);
            }
        }
    }
}

/// The last entry that is kept is the last with its key.
proof fn lemma_last_in_unit(es: Seq<EntryView>, k: int)
    requires
        0 <= k < es.len(),
        spec::unit_linux_key(es[k].key),
        is_last(es, k),
    ensures
        properties::kept_in_unit(es).len() > 0,
        properties::kept_in_unit(es).last() == (es[k].key, es[k].value),
    decreases es.len(),
{
    let rest = es.drop_last();
    if k < rest.len() {
        assert(es[es.len() - 1].key != es[k].key);
        assert forall|j: int| k < j < rest.len() implies (#[trigger] rest[j]).key
            != rest[k].key by {
            assert(rest[j] == es[j]);
        }
        lemma_last_in_unit(rest, k);
    }
}

proof fn lemma_shown_of_unit(n: NameView, u: UnitView, st: StatusView, k: int)
    requires
        0 <= k < ini::entries_or_none(u.raw, "Unit"@).len(),
        spec::unit_linux_key(ini::entries_or_none(u.raw, "Unit"@)[k].key),
        is_last(ini::entries_or_none(u.raw, "Unit"@), k),
    ensures
        ({
            let e = ini::entries_or_none(u.raw, "Unit"@)[k];
            &&& properties::properties(n, u, st).contains_key(e.key)
            &&& properties::properties(n, u, st)[e.key] == e.value
        }),
{
    let es = ini::entries_or_none(u.raw, "Unit"@);
    lemma_last_in_unit(es, k);
    let more = properties::kept_in_unit(es);
    let kept = properties::kept_directives(u);
    let i = kept.len() - 1;
    assert(kept[i] == more[more.len() - 1]);
    if properties::own_properties(n, u, st).contains_key(es[k].key) {
        properties::lemma_own_keys(n, u, st, es[k].key);
        lemma_own_look(es[k].key);
        reveal_strlit("JoinsNamespaceOf");
    }
    properties::kept_directives_are_shown(n, u, st);
}

/// A directive of `[Unit]` that needs a Linux kernel is shown with the value that
/// the unit's file gives it, the last one where there are several.
pub proof fn linux_only_unit_directives_are_shown(
    n: NameView,
    path: Seq<char>,
    source: Seq<char>,
    sections: Seq<SectionView>,
    st: StatusView,
    k: int,
)
    requires
        spec::unit_of_sections(n, path, source, sections) is Ok,
        0 <= k < ini::entries_or_none(sections, "Unit"@).len(),
        spec::unit_linux_key(ini::entries_or_none(sections, "Unit"@)[k].key),
        is_last(ini::entries_or_none(sections, "Unit"@), k),
    ensures
        ({
            let u = spec::unit_of_sections(n, path, source, sections)->Ok_0.0;
            let e = ini::entries_or_none(sections, "Unit"@)[k];
            &&& properties::properties(n, u, st).contains_key(e.key)
            &&& properties::properties(n, u, st)[e.key] == e.value
        }),
{
    let u = spec::unit_of_sections(n, path, source, sections)->Ok_0.0;
    spec::parsed_unit_keeps_source(n, path, source, sections);
    assert(u.raw == sections);
    lemma_shown_of_unit(n, u, st, k);
}

// ---------------------------------------------------------------------
// Services
// ---------------------------------------------------------------------

/// The directives that a service keeps verbatim, with their values.
spec fn kept_by_service(s: ServiceView) -> Seq<(Seq<char>, Seq<char>)> {
    s.passthrough.map_values(|t: (Seq<char>, Seq<char>, Seq<char>)| (t.1, t.2))
}

proof fn lemma_service_text(m: ServiceView, k: Seq<char>, v: Seq<char>)
    ensures
        parse_service::service_text(m, k, v) matches Some(Ok(n)) ==> n.passthrough == m.passthrough,
{
}

proof fn lemma_service_list(m: ServiceView, k: Seq<char>, v: Seq<char>)
    ensures
        parse_service::service_list(m, k, v) matches Some(Ok(n)) ==> n.passthrough == m.passthrough,
{
}

proof fn lemma_service_command(m: ServiceView, k: Seq<char>, v: Seq<char>)
    ensures
        parse_service::service_command(m, k, v) matches Some(Ok(n)) ==> n.passthrough == m.passthrough,
{
}

proof fn lemma_service_switch(m: ServiceView, k: Seq<char>, v: Seq<char>)
    ensures
        parse_service::service_switch(m, k, v) matches Some(Ok(n)) ==> n.passthrough == m.passthrough,
{
}

proof fn lemma_service_duration(m: ServiceView, k: Seq<char>, v: Seq<char>)
    ensures
        parse_service::service_duration(m, k, v) matches Some(Ok(n)) ==> n.passthrough == m.passthrough,
{
}

proof fn lemma_service_limit(m: ServiceView, k: Seq<char>, v: Seq<char>)
    ensures
        parse_service::service_limit(m, k, v) matches Some(Ok(n)) ==> n.passthrough == m.passthrough,
{
}

proof fn lemma_service_choice(m: ServiceView, k: Seq<char>, v: Seq<char>)
    ensures
        parse_service::service_choice(m, k, v) matches Some(Ok(n)) ==> n.passthrough == m.passthrough,
{
}

proof fn lemma_service_directive(m: ServiceView, k: Seq<char>, v: Seq<char>)
    ensures
        parse_service::service_directive(m, k, v) matches Some(Ok(n)) ==> n.passthrough == m.passthrough,
{
    lemma_service_text(m, k, v);
    lemma_service_list(m, k, v);
    lemma_service_command(m, k, v);
    lemma_service_switch(m, k, v);
    lemma_service_duration(m, k, v);
    lemma_service_limit(m, k, v);
    lemma_service_choice(m, k, v);
}

/// One entry keeps at most itself.
proof fn lemma_service_step(
    path: Seq<char>,
    m: ServiceView,
    ws: Seq<ParseWarningView>,
    e: EntryView,
    key: Seq<char>,
)
    requires
        parse_service::service_step(path, m, ws, e) is Ok,
    ensures
        ({
            let n = parse_service::service_step(path, m, ws, e)->Ok_0.0;
            &&& e.key != key ==> goes_on_without(kept_by_service(m), kept_by_service(n), key)
            &&& linux_only::linux_only_key("Service"@, e.key) ==> kept_by_service(n) == kept_by_service(m).push((e.key, e.value))
        }),
{
    lemma_service_directive(m, e.key, e.value);
    let n = parse_service::service_step(path, m, ws, e)->Ok_0.0;
    let a = kept_by_service(m);
    let b = kept_by_service(n);
    assert(b =~= a || b =~= a.push((e.key, e.value)));
    assert(b.take(a.len() as int) =~= a);
}

proof fn lemma_service_entries(
    path: Seq<char>,
    es: Seq<EntryView>,
    m: ServiceView,
    ws: Seq<ParseWarningView>,
    key: Seq<char>,
)
    requires
        parse_service::service_entries(path, es, m, ws) is Ok,
        forall|j: int| 0 <= j < es.len() ==> (#[trigger] es[j]).key != key,
    ensures
        goes_on_without(
            kept_by_service(m),
            kept_by_service(parse_service::service_entries(path, es, m, ws)->Ok_0.0),
            key,
        ),
    decreases es.len(),
{
    if es.len() == 0 {
        assert(kept_by_service(m).take(kept_by_service(m).len() as int) =~= kept_by_service(m));
    } else {
        let (n, vs) = parse_service::service_step(path, m, ws, es[0])->Ok_0;
        lemma_service_step(path, m, ws, es[0], key);
        let rest = es.skip(1);
        assert forall|j: int| 0 <= j < rest.len() implies (#[trigger] rest[j]).key != key by {
            assert(rest[j] == es[j + 1]);
        }
        lemma_service_entries(path, rest, n, vs, key);
        let r = parse_service::service_entries(path, rest, n, vs)->Ok_0.0;
        lemma_goes_on(kept_by_service(m), kept_by_service(n), kept_by_service(r), key);
    }
}

proof fn lemma_service_keeps(
    path: Seq<char>,
    es: Seq<EntryView>,
    m: ServiceView,
    ws: Seq<ParseWarningView>,
    k: int,
)
    requires
        parse_service::service_entries(path, es, m, ws) is Ok,
        0 <= k < es.len(),
        linux_only::linux_only_key("Service"@, es[k].key),
        is_last(es, k),
    ensures
        ends_with_value(
            kept_by_service(parse_service::service_entries(path, es, m, ws)->Ok_0.0),
            es[k].key,
            es[k].value,
        ),
    decreases k,
{
    let (n, vs) = parse_service::service_step(path, m, ws, es[0])->Ok_0;
    lemma_service_step(path, m, ws, es[0], es[k].key);
    let rest = es.skip(1);
    if k == 0 {
        assert forall|j: int| 0 <= j < rest.len() implies (#[trigger] rest[j]).key
            != es[0].key by {
            assert(rest[j] == es[j + 1]);
        }
        lemma_service_entries(path, rest, n, vs, es[0].key);
        let r = parse_service::service_entries(path, rest, n, vs)->Ok_0.0;
        lemma_stays_last(kept_by_service(n), kept_by_service(r), es[0].key, es[0].value);
    } else {
        assert(rest[k - 1] == es[k]);
        assert forall|j: int| k - 1 < j < rest.len() implies (#[trigger] rest[j]).key
            != rest[k - 1].key by {
            assert(rest[j] == es[j + 1]);
        }
        lemma_service_keeps(path, rest, n, vs, k - 1);
    }
}

/// A directive of a service that needs a Linux kernel is shown with the value
/// that the unit's file gives it, the last one where there are several.
pub proof fn linux_only_service_directives_are_shown(
    n: NameView,
    path: Seq<char>,
    source: Seq<char>,
    sections: Seq<SectionView>,
    st: StatusView,
    k: int,
)
    requires
        n.kind is Service,
        spec::unit_of_sections(n, path, source, sections) is Ok,
        0 <= k < ini::entries_or_none(sections, "Service"@).len(),
        linux_only::linux_only_key("Service"@, ini::entries_or_none(sections, "Service"@)[k].key),
        is_last(ini::entries_or_none(sections, "Service"@), k),
    ensures
        ({
            let u = spec::unit_of_sections(n, path, source, sections)->Ok_0.0;
            let e = ini::entries_or_none(sections, "Service"@)[k];
            &&& properties::properties(n, u, st).contains_key(e.key)
            &&& properties::properties(n, u, st)[e.key] == e.value
        }),
{
    let u = spec::unit_of_sections(n, path, source, sections)->Ok_0.0;
    let es = ini::entries_or_none(sections, "Service"@);
    let start = UnitView { raw: sections, source, ..spec::empty_unit(n) };
    let (m, ws) = spec::unit_entries(
        path,
        ini::entries_or_none(sections, "Unit"@),
        start,
        seq![],
    )->Ok_0;
    let (m2, vs) = spec::install_entries(
        path,
        ini::entries_or_none(sections, "Install"@),
        m,
        ws,
    );
    spec::lemma_entries_keep_name(path, ini::entries_or_none(sections, "Unit"@), start, seq![]);
    spec::lemma_install_keeps_name(path, ini::entries_or_none(sections, "Install"@), m, ws);
    lemma_service_keeps(path, es, parse_service::fresh_service(), vs, k);
    lemma_names(es[k].key);
    let own = properties::kept_by_type(u);
    let more = properties::kept_in_unit(ini::entries_or_none(u.raw, "Unit"@));
    lemma_kept_in_unit(ini::entries_or_none(u.raw, "Unit"@));
    let kept = properties::kept_directives(u);
    let i = choose|i: int|
        0 <= i < own.len() && #[trigger] own[i] == (es[k].key, es[k].value) && forall|j: int|
            i < j < own.len() ==> (#[trigger] own[j]).0 != es[k].key;
    assert(kept[i] == own[i]);
    assert forall|j: int| i < j < kept.len() implies (#[trigger] kept[j]).0 != es[k].key by {
        if j < own.len() {
            assert(kept[j] == own[j]);
        } else {
            assert(kept[j] == more[j - own.len()]);
        }
    }
    if properties::own_properties(n, u, st).contains_key(es[k].key) {
        properties::lemma_own_keys(n, u, st, es[k].key);
    }
    properties::kept_directives_are_shown(n, u, st);
}

// ---------------------------------------------------------------------
// Sockets
// ---------------------------------------------------------------------

proof fn lemma_socket_listen(m: SocketView, k: Seq<char>, v: Seq<char>)
    ensures
        parse_socket::socket_listen(m, k, v) matches Some(Ok(n)) ==> n.passthrough == m.passthrough,
{
}

proof fn lemma_socket_switch(m: SocketView, k: Seq<char>, v: Seq<char>)
    ensures
        parse_socket::socket_switch(m, k, v) matches Some(Ok(n)) ==> n.passthrough == m.passthrough,
{
}

proof fn lemma_socket_permission(m: SocketView, k: Seq<char>, v: Seq<char>)
    ensures
        parse_socket::socket_permission(m, k, v) matches Some(Ok(n)) ==> n.passthrough == m.passthrough,
{
}

proof fn lemma_socket_number(m: SocketView, k: Seq<char>, v: Seq<char>)
    ensures
        parse_socket::socket_number(m, k, v) matches Some(Ok(n)) ==> n.passthrough == m.passthrough,
{
}

proof fn lemma_socket_limit(m: SocketView, k: Seq<char>, v: Seq<char>)
    ensures
        parse_socket::socket_limit(m, k, v) matches Some(Ok(n)) ==> n.passthrough == m.passthrough,
{
}

proof fn lemma_socket_duration(m: SocketView, k: Seq<char>, v: Seq<char>)
    ensures
        parse_socket::socket_duration(m, k, v) matches Some(Ok(n)) ==> n.passthrough == m.passthrough,
{
}

proof fn lemma_socket_text(m: SocketView, k: Seq<char>, v: Seq<char>)
    ensures
        parse_socket::socket_text(m, k, v) matches Some(Ok(n)) ==> n.passthrough == m.passthrough,
{
}

proof fn lemma_socket_directive(m: SocketView, k: Seq<char>, v: Seq<char>)
    ensures
        parse_socket::socket_directive(m, k, v) matches Some(Ok(n)) ==> n.passthrough == m.passthrough,
{
    lemma_socket_listen(m, k, v);
    lemma_socket_switch(m, k, v);
    lemma_socket_permission(m, k, v);
    lemma_socket_number(m, k, v);
    lemma_socket_limit(m, k, v);
    lemma_socket_duration(m, k, v);
    lemma_socket_text(m, k, v);
}

/// One entry keeps at most itself.
proof fn lemma_socket_step(
    path: Seq<char>,
    m: SocketView,
    ws: Seq<ParseWarningView>,
    e: EntryView,
    key: Seq<char>,
)
    requires
        parse_socket::socket_step(path, m, ws, e) is Ok,
    ensures
        ({
            let n = parse_socket::socket_step(path, m, ws, e)->Ok_0.0;
            &&& e.key != key ==> goes_on_without(m.passthrough, n.passthrough, key)
            &&& parse_socket::socket_linux_key(e.key) ==> n.passthrough == m.passthrough.push((e.key, e.value))
        }),
{
    lemma_socket_directive(m, e.key, e.value);
    let n = parse_socket::socket_step(path, m, ws, e)->Ok_0.0;
    let a = m.passthrough;
    let b = n.passthrough;
    assert(b =~= a || b =~= a.push((e.key, e.value)));
    assert(b.take(a.len() as int) =~= a);
}

proof fn lemma_socket_entries(
    path: Seq<char>,
    es: Seq<EntryView>,
    m: SocketView,
    ws: Seq<ParseWarningView>,
    key: Seq<char>,
)
    requires
        parse_socket::socket_entries(path, es, m, ws) is Ok,
        forall|j: int| 0 <= j < es.len() ==> (#[trigger] es[j]).key != key,
    ensures
        goes_on_without(
            m.passthrough,
            parse_socket::socket_entries(path, es, m, ws)->Ok_0.0.passthrough,
            key,
        ),
    decreases es.len(),
{
    if es.len() == 0 {
        assert(m.passthrough.take(m.passthrough.len() as int) =~= m.passthrough);
    } else {
        let (n, vs) = parse_socket::socket_step(path, m, ws, es[0])->Ok_0;
        lemma_socket_step(path, m, ws, es[0], key);
        let rest = es.skip(1);
        assert forall|j: int| 0 <= j < rest.len() implies (#[trigger] rest[j]).key != key by {
            assert(rest[j] == es[j + 1]);
        }
        lemma_socket_entries(path, rest, n, vs, key);
        let r = parse_socket::socket_entries(path, rest, n, vs)->Ok_0.0;
        lemma_goes_on(m.passthrough, n.passthrough, r.passthrough, key);
    }
}

proof fn lemma_socket_keeps(
    path: Seq<char>,
    es: Seq<EntryView>,
    m: SocketView,
    ws: Seq<ParseWarningView>,
    k: int,
)
    requires
        parse_socket::socket_entries(path, es, m, ws) is Ok,
        0 <= k < es.len(),
        parse_socket::socket_linux_key(es[k].key),
        is_last(es, k),
    ensures
        ends_with_value(
            parse_socket::socket_entries(path, es, m, ws)->Ok_0.0.passthrough,
            es[k].key,
            es[k].value,
        ),
    decreases k,
{
    let (n, vs) = parse_socket::socket_step(path, m, ws, es[0])->Ok_0;
    lemma_socket_step(path, m, ws, es[0], es[k].key);
    let rest = es.skip(1);
    if k == 0 {
        assert forall|j: int| 0 <= j < rest.len() implies (#[trigger] rest[j]).key
            != es[0].key by {
            assert(rest[j] == es[j + 1]);
        }
        lemma_socket_entries(path, rest, n, vs, es[0].key);
        let r = parse_socket::socket_entries(path, rest, n, vs)->Ok_0.0;
        lemma_stays_last(n.passthrough, r.passthrough, es[0].key, es[0].value);
    } else {
        assert(rest[k - 1] == es[k]);
        assert forall|j: int| k - 1 < j < rest.len() implies (#[trigger] rest[j]).key
            != rest[k - 1].key by {
            assert(rest[j] == es[j + 1]);
        }
        lemma_socket_keeps(path, rest, n, vs, k - 1);
    }
}

/// The same goes for a socket.
pub proof fn linux_only_socket_directives_are_shown(
    n: NameView,
    path: Seq<char>,
    source: Seq<char>,
    sections: Seq<SectionView>,
    st: StatusView,
    k: int,
)
    requires
        n.kind is Socket,
        spec::unit_of_sections(n, path, source, sections) is Ok,
        0 <= k < ini::entries_or_none(sections, "Socket"@).len(),
        parse_socket::socket_linux_key(ini::entries_or_none(sections, "Socket"@)[k].key),
        is_last(ini::entries_or_none(sections, "Socket"@), k),
    ensures
        ({
            let u = spec::unit_of_sections(n, path, source, sections)->Ok_0.0;
            let e = ini::entries_or_none(sections, "Socket"@)[k];
            &&& properties::properties(n, u, st).contains_key(e.key)
            &&& properties::properties(n, u, st)[e.key] == e.value
        }),
{
    let u = spec::unit_of_sections(n, path, source, sections)->Ok_0.0;
    let es = ini::entries_or_none(sections, "Socket"@);
    let start = UnitView { raw: sections, source, ..spec::empty_unit(n) };
    let (m, ws) = spec::unit_entries(
        path,
        ini::entries_or_none(sections, "Unit"@),
        start,
        seq![],
    )->Ok_0;
    let (m2, vs) = spec::install_entries(
        path,
        ini::entries_or_none(sections, "Install"@),
        m,
        ws,
    );
    spec::lemma_entries_keep_name(path, ini::entries_or_none(sections, "Unit"@), start, seq![]);
    spec::lemma_install_keeps_name(path, ini::entries_or_none(sections, "Install"@), m, ws);
    lemma_socket_keeps(path, es, parse_socket::fresh_socket(), vs, k);
    lemma_names(es[k].key);
    let own = properties::kept_by_type(u);
    let more = properties::kept_in_unit(ini::entries_or_none(u.raw, "Unit"@));
    lemma_kept_in_unit(ini::entries_or_none(u.raw, "Unit"@));
    let kept = properties::kept_directives(u);
    let i = choose|i: int|
        0 <= i < own.len() && #[trigger] own[i] == (es[k].key, es[k].value) && forall|j: int|
            i < j < own.len() ==> (#[trigger] own[j]).0 != es[k].key;
    assert(kept[i] == own[i]);
    assert forall|j: int| i < j < kept.len() implies (#[trigger] kept[j]).0 != es[k].key by {
        if j < own.len() {
            assert(kept[j] == own[j]);
        } else {
            assert(kept[j] == more[j - own.len()]);
        }
    }
    if properties::own_properties(n, u, st).contains_key(es[k].key) {
        properties::lemma_own_keys(n, u, st, es[k].key);
    }
    properties::kept_directives_are_shown(n, u, st);
}

} // verus!
