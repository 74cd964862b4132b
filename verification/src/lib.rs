//! The core of a desktop tool that watches a Linux machine and reclaims disk
//! space on it: parsers for what the kernel and the package managers print,
//! the sampling arithmetic, the alert state machine, the deletion guard, and
//! the preview and report of a reclaim.
//!
//! Everything here works on plain values. Reading files, running commands and
//! deleting anything is left to the caller.
use vstd::prelude::*;

pub mod caps;
pub mod decimal;
pub mod double;
pub mod error;
pub mod exact;
pub mod helper;
pub mod metrics;
pub mod op;
pub mod order;
pub mod paths;
pub mod percent;
pub mod pkg;
pub mod process;
pub mod protect;
pub mod reclaim;
pub mod rules;
pub mod settings;
pub mod space;
pub mod text;

verus! {

} // verus!
