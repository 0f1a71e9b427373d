//! Where units are looked for, and what their files leave to a Linux kernel.

use crate::paths;
use crate::text;
use crate::unit::env;
use crate::unit::linux_only;
use crate::unit::search;
use vstd::prelude::*;

verus! {

/// The directives of a service that need a Linux kernel.
pub open spec fn needs_linux(key: Seq<char>) -> bool {
    ||| key == "CPUAccounting"@
    ||| key == "CPUWeight"@
    ||| key == "StartupCPUWeight"@
    ||| key == "CPUShares"@
    ||| key == "CPUQuota"@
    ||| key == "CPUQuotaPeriodSec"@
    ||| key == "AllowedCPUs"@
    ||| key == "AllowedMemoryNodes"@
    ||| key == "MemoryAccounting"@
    ||| key == "MemoryMin"@
    ||| key == "MemoryLow"@
    ||| key == "MemoryHigh"@
    ||| key == "MemoryMax"@
    ||| key == "MemorySwapMax"@
    ||| key == "MemoryLimit"@
    ||| key == "TasksAccounting"@
    ||| key == "TasksMax"@
    ||| key == "IOAccounting"@
    ||| key == "IOWeight"@
    ||| key == "IODeviceWeight"@
    ||| key == "IOReadBandwidthMax"@
    ||| key == "IOWriteBandwidthMax"@
    ||| key == "IOReadIOPSMax"@
    ||| key == "IOWriteIOPSMax"@
    ||| key == "BlockIOAccounting"@
    ||| key == "BlockIOWeight"@
    ||| key == "IPAccounting"@
    ||| key == "IPAddressAllow"@
    ||| key == "IPAddressDeny"@
    ||| key == "DeviceAllow"@
    ||| key == "DevicePolicy"@
    ||| key == "Slice"@
    ||| key == "Delegate"@
    ||| key == "BindPaths"@
    ||| key == "BindReadOnlyPaths"@
    ||| key == "ReadWritePaths"@
    ||| key == "InaccessiblePaths"@
    ||| key == "TemporaryFileSystem"@
    ||| key == "MountFlags"@
    ||| key == "RootImage"@
    ||| key == "NetworkNamespacePath"@
    ||| key == "ProcSubset"@
    ||| key == "RestrictNamespaces"@
    ||| key == "SystemCallFilter"@
    ||| key == "SystemCallErrorNumber"@
    ||| key == "SystemCallArchitectures"@
    ||| key == "SystemCallLog"@
    ||| key == "RestrictAddressFamilies"@
    ||| key == "RestrictRealtime"@
    ||| key == "RestrictSUIDSGID"@
    ||| key == "MemoryDenyWriteExecute"@
    ||| key == "LockPersonality"@
    ||| key == "NoNewPrivileges"@
    ||| key == "CapabilityBoundingSet"@
    ||| key == "AmbientCapabilities"@
    ||| key == "SecureBits"@
    ||| key == "SELinuxContext"@
    ||| key == "AppArmorProfile"@
    ||| key == "SmackProcessLabel"@
    ||| key == "DynamicUser"@
    ||| key == "PAMName"@
    ||| key == "OOMScoreAdjust"@
    ||| key == "OOMPolicy"@
    ||| key == "KeyringMode"@
}

/// The directives that need a Linux kernel are those of the sandbox, told by how
/// they begin, and those of a fixed list, and only in `[Service]`; what begins with
/// `X-` there is a vendor's own.
pub proof fn kernel_directives_are_told(section: Seq<char>, key: Seq<char>)
    ensures
        linux_only::linux_only_key("Service"@, key) <==> needs_linux(key) || text::begins_with(
            key,
            "Private"@,
        ) || text::begins_with(key, "Protect"@) || text::begins_with(key, "ReadOnly"@),
        linux_only::passthrough_key("Service"@, key) <==> text::begins_with(key, "X-"@),
        section != "Service"@ ==> !linux_only::linux_only_key(section, key)
            && !linux_only::passthrough_key(section, key),
{
}

/// A directory of the user's is the one that its variable names, else it lies below
/// the home; with neither there is none.
pub proof fn variables_win_over_the_home(v: Seq<char>, h: Seq<char>, d: Seq<char>)
    ensures
        search::xdg_dir(Some(v), Some(h), d) == Some(v),
        search::xdg_dir(Some(v), None, d) == Some(v),
        search::xdg_dir(None, Some(h), d) == Some(paths::joined(h, d)),
        search::xdg_dir(None, None, d) is None,
{
}

/// Units are looked for first below the run-time directory, then in the user's own
/// configuration, then in that of the machine, and last in what is installed; each
/// place once.
pub proof fn places_are_searched_in_order(rt: Seq<char>, cfg: Seq<char>)
    ensures
        search::search_paths(Some(rt), Some(cfg)) =~= seq![
            paths::joined(rt, "systeml/user.control"@),
            paths::joined(rt, "systemd/user.control"@),
            paths::joined(rt, "systemd/transient"@),
            paths::joined(rt, "systemd/generator.early"@),
            paths::joined(cfg, "systemd/user"@),
            paths::joined(rt, "systemd/generator"@),
            "/etc/systemd/user"@,
            paths::joined(rt, "systemd/user"@),
            paths::joined(rt, "systemd/generator.late"@),
            "/usr/local/lib/systemd/user"@,
            "/usr/local/share/systemd/user"@,
            "/usr/lib/systemd/user"@,
            "/usr/share/systemd/user"@,
        ],
        search::search_paths(None, Some(cfg)) =~= seq![
            paths::joined(cfg, "systemd/user"@),
            "/etc/systemd/user"@,
            "/usr/local/lib/systemd/user"@,
            "/usr/local/share/systemd/user"@,
            "/usr/lib/systemd/user"@,
            "/usr/share/systemd/user"@,
        ],
        search::search_paths(None, None) =~= seq![
            "/etc/systemd/user"@,
            "/usr/local/lib/systemd/user"@,
            "/usr/local/share/systemd/user"@,
            "/usr/lib/systemd/user"@,
            "/usr/share/systemd/user"@,
        ],
{
}

/// A path joined to a directory lies below it, with one slash between them; an
/// absolute path stands for itself.
pub proof fn joining_paths(a: Seq<char>, b: Seq<char>)
    requires
        b.len() > 0,
    ensures
        b[0] == '/' ==> paths::joined(a, b) == b,
        b[0] != '/' && a.len() > 0 && a.last() != '/' ==> paths::joined(a, b) == a + seq!['/'] + b,
        b[0] != '/' && a.len() > 0 && a.last() == '/' ==> paths::joined(a, b) == a + b,
{
    reveal_strlit("/");
    assert("/"@ =~= seq!['/']);
}

/// Each word of `Environment=` sets what stands before its first `=` to all that
/// stands behind it, in order; a word without one, or with nothing before it, is an
/// error.
pub proof fn assignments_part_at_the_first_equals_sign(
    ws: Seq<Seq<char>>,
    k: Seq<char>,
    v: Seq<char>,
)
    requires
        forall|i: int| 0 <= i < k.len() ==> #[trigger] k[i] != '=',
        env::env_pairs(ws) is Ok,
    ensures
        k.len() > 0 ==> env::env_pairs(ws.push(k + seq!['='] + v)) == Ok::<
            Seq<(Seq<char>, Seq<char>)>,
            Seq<char>,
        >(env::env_pairs(ws)->Ok_0.push((k, v))),
        k.len() == 0 ==> env::env_pairs(ws.push(k + seq!['='] + v)) is Err,
        env::env_pairs(ws.push(k)) is Err,
{
    let t = k + seq!['='] + v;
    let n = k.len() as int;
    assert(t[n] == '=');
    assert forall|j: int| 0 <= j < n implies t[j] != '=' by {
        assert(t[j] == k[j]);
    }
    text::lemma_first_index_is(t, '=', n);
    assert(t.take(n) =~= k);
    assert(t.skip(n + 1) =~= v);
    text::lemma_first_index_is(k, '=', n);
    assert(ws.push(t).drop_last() =~= ws);
    assert(ws.push(k).drop_last() =~= ws);
}

} // verus!
