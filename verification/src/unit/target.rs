//! `[Target]` (and `[Scope]`) sections. Targets are pure dependency
//! aggregators: no execution. Scope units exist only to register externally
//! launched processes.

use vstd::prelude::*;

verus! {

/// `[Target]` directives. Currently empty — all interesting state is in
/// `[Unit]`.
#[derive(Debug, Clone, PartialEq, Eq)]
pub struct TargetUnit;

/// `[Scope]` — also empty for now.
#[derive(Debug, Clone, PartialEq, Eq)]
pub struct ScopeUnit;

} // verus!
