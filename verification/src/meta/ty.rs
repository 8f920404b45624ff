//! Per-class facts discovered from a compiled artifact.

use vstd::prelude::*;

verus! {

/// Fact sheet for one foreign class: its in-memory size and alignment,
/// each unknown until the matching metadata symbol has been seen.
#[derive(Debug, PartialEq, Eq, Clone, Copy, Default)]
pub struct TypeInfo {
    pub size: Option<usize>,
    pub align: Option<usize>,
}

} // verus!
