//! The catalogue of Linux-kernel-only directives.
//!
//! These are parsed and warned about, never errored: the unit still loads, and
//! the directive stays in its `cat`/`show` output.

use crate::text;
use crate::text::{chars_of, same, starts_with};
use vstd::prelude::*;

verus! {

/// Resource control through cgroups.
pub open spec fn cgroup_key(key: Seq<char>) -> bool {
    ||| key == "CPUAccounting"@
    ||| key == "CPUWeight"@
    ||| key == "StartupCPUWeight"@
    ||| key == "CPUShares"@
    ||| key == "CPUQuota"@
    ||| key == "CPUQuotaPeriodSec"@
    ||| key == "AllowedCPUs"@
    ||| key == "AllowedMemoryNodes"@
    ||| key == "MemoryAccounting"@
    ||| key == "MemoryMin"@
    ||| key == "MemoryLow"@
    ||| key == "MemoryHigh"@
    ||| key == "MemoryMax"@
    ||| key == "MemorySwapMax"@
    ||| key == "MemoryLimit"@
    ||| key == "TasksAccounting"@
    ||| key == "TasksMax"@
    ||| key == "IOAccounting"@
    ||| key == "IOWeight"@
    ||| key == "IODeviceWeight"@
    ||| key == "IOReadBandwidthMax"@
    ||| key == "IOWriteBandwidthMax"@
    ||| key == "IOReadIOPSMax"@
    ||| key == "IOWriteIOPSMax"@
    ||| key == "BlockIOAccounting"@
    ||| key == "BlockIOWeight"@
    ||| key == "IPAccounting"@
    ||| key == "IPAddressAllow"@
    ||| key == "IPAddressDeny"@
    ||| key == "DeviceAllow"@
    ||| key == "DevicePolicy"@
    ||| key == "Slice"@
    ||| key == "Delegate"@
}

fn in_cgroup_keys(key: &str) -> (r: bool)
    ensures
        r == cgroup_key(key@),
{
    same(key, "CPUAccounting")
        || same(key, "CPUWeight")
        || same(key, "StartupCPUWeight")
        || same(key, "CPUShares")
        || same(key, "CPUQuota")
        || same(key, "CPUQuotaPeriodSec")
        || same(key, "AllowedCPUs")
        || same(key, "AllowedMemoryNodes")
        || same(key, "MemoryAccounting")
        || same(key, "MemoryMin")
        || same(key, "MemoryLow")
        || same(key, "MemoryHigh")
        || same(key, "MemoryMax")
        || same(key, "MemorySwapMax")
        || same(key, "MemoryLimit")
        || same(key, "TasksAccounting")
        || same(key, "TasksMax")
        || same(key, "IOAccounting")
        || same(key, "IOWeight")
        || same(key, "IODeviceWeight")
        || same(key, "IOReadBandwidthMax")
        || same(key, "IOWriteBandwidthMax")
        || same(key, "IOReadIOPSMax")
        || same(key, "IOWriteIOPSMax")
        || same(key, "BlockIOAccounting")
        || same(key, "BlockIOWeight")
        || same(key, "IPAccounting")
        || same(key, "IPAddressAllow")
        || same(key, "IPAddressDeny")
        || same(key, "DeviceAllow")
        || same(key, "DevicePolicy")
        || same(key, "Slice")
        || same(key, "Delegate")
}

/// Mount, network and process namespaces.
pub open spec fn namespace_key(key: Seq<char>) -> bool {
    ||| key == "BindPaths"@
    ||| key == "BindReadOnlyPaths"@
    ||| key == "ReadWritePaths"@
    ||| key == "InaccessiblePaths"@
    ||| key == "TemporaryFileSystem"@
    ||| key == "MountFlags"@
    ||| key == "RootImage"@
    ||| key == "NetworkNamespacePath"@
    ||| key == "ProcSubset"@
    ||| key == "RestrictNamespaces"@
}

fn in_namespace_keys(key: &str) -> (r: bool)
    ensures
        r == namespace_key(key@),
{
    same(key, "BindPaths")
        || same(key, "BindReadOnlyPaths")
        || same(key, "ReadWritePaths")
        || same(key, "InaccessiblePaths")
        || same(key, "TemporaryFileSystem")
        || same(key, "MountFlags")
        || same(key, "RootImage")
        || same(key, "NetworkNamespacePath")
        || same(key, "ProcSubset")
        || same(key, "RestrictNamespaces")
}

/// System call filters and personality.
pub open spec fn seccomp_key(key: Seq<char>) -> bool {
    ||| key == "SystemCallFilter"@
    ||| key == "SystemCallErrorNumber"@
    ||| key == "SystemCallArchitectures"@
    ||| key == "SystemCallLog"@
    ||| key == "RestrictAddressFamilies"@
    ||| key == "RestrictRealtime"@
    ||| key == "RestrictSUIDSGID"@
    ||| key == "MemoryDenyWriteExecute"@
    ||| key == "LockPersonality"@
    ||| key == "NoNewPrivileges"@
}

fn in_seccomp_keys(key: &str) -> (r: bool)
    ensures
        r == seccomp_key(key@),
{
    same(key, "SystemCallFilter")
        || same(key, "SystemCallErrorNumber")
        || same(key, "SystemCallArchitectures")
        || same(key, "SystemCallLog")
        || same(key, "RestrictAddressFamilies")
        || same(key, "RestrictRealtime")
        || same(key, "RestrictSUIDSGID")
        || same(key, "MemoryDenyWriteExecute")
        || same(key, "LockPersonality")
        || same(key, "NoNewPrivileges")
}

/// Capabilities.
pub open spec fn capability_key(key: Seq<char>) -> bool {
    ||| key == "CapabilityBoundingSet"@
    ||| key == "AmbientCapabilities"@
    ||| key == "SecureBits"@
}

fn in_capability_keys(key: &str) -> (r: bool)
    ensures
        r == capability_key(key@),
{
    same(key, "CapabilityBoundingSet")
        || same(key, "AmbientCapabilities")
        || same(key, "SecureBits")
}

/// Mandatory access control frameworks.
pub open spec fn mac_key(key: Seq<char>) -> bool {
    ||| key == "SELinuxContext"@
    ||| key == "AppArmorProfile"@
    ||| key == "SmackProcessLabel"@
}

fn in_mac_keys(key: &str) -> (r: bool)
    ensures
        r == mac_key(key@),
{
    same(key, "SELinuxContext")
        || same(key, "AppArmorProfile")
        || same(key, "SmackProcessLabel")
}

/// Users, PAM, keyrings and the out-of-memory killer.
pub open spec fn other_key(key: Seq<char>) -> bool {
    ||| key == "DynamicUser"@
    ||| key == "PAMName"@
    ||| key == "OOMScoreAdjust"@
    ||| key == "OOMPolicy"@
    ||| key == "KeyringMode"@
}

fn in_other_keys(key: &str) -> (r: bool)
    ensures
        r == other_key(key@),
{
    same(key, "DynamicUser")
        || same(key, "PAMName")
        || same(key, "OOMScoreAdjust")
        || same(key, "OOMPolicy")
        || same(key, "KeyringMode")
}

/// Families of directives that share a prefix.
pub open spec fn sandbox_prefix(key: Seq<char>) -> bool {
    text::begins_with(key, "Private"@) || text::begins_with(key, "Protect"@) || text::begins_with(
        key,
        "ReadOnly"@,
    )
}

/// Whether a directive of a section needs a Linux kernel.
pub open spec fn linux_only_key(section: Seq<char>, key: Seq<char>) -> bool {
    section == "Service"@ && (sandbox_prefix(key) || cgroup_key(key) || namespace_key(key)
        || seccomp_key(key) || capability_key(key) || mac_key(key) || other_key(key))
}

/// Whether a directive of a section is kept without a warning: vendor
/// extensions, which begin with `X-`.
pub open spec fn passthrough_key(section: Seq<char>, key: Seq<char>) -> bool {
    section == "Service"@ && text::begins_with(key, "X-"@)
}

/// Whether a directive needs a Linux kernel.
pub fn is_linux_only(section: &str, key: &str) -> (r: bool)
    ensures
        r == linux_only_key(section@, key@),
{
    if !same(section, "Service") {
        return false;
    }
    let chars = chars_of(key);
    let c = chars.as_slice();
    starts_with(c, "Private") || starts_with(c, "Protect") || starts_with(c, "ReadOnly")
        || in_cgroup_keys(key) || in_namespace_keys(key) || in_seccomp_keys(key)
        || in_capability_keys(key) || in_mac_keys(key) || in_other_keys(key)
}

/// Whether a directive is kept without a warning.
pub fn is_known_passthrough(section: &str, key: &str) -> (r: bool)
    ensures
        r == passthrough_key(section@, key@),
{
    same(section, "Service") && starts_with(chars_of(key).as_slice(), "X-")
}

} // verus!
