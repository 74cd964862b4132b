//! What the privileged helper can be asked, and what it answers.
use vstd::prelude::*;
use crate::space::{Manager, ReclaimKind, RemovableKind, VacuumLimit};

verus! {

/// One typed request. No free-form text reaches a privileged command line.
#[allow(inconsistent_fields)]
#[derive(Debug, PartialEq, Eq)]
pub enum Op {
    ReclaimFile { kind: ReclaimKind, path: String },
    RemovePackages { kind: RemovableKind, packages: Vec<String> },
    PackageManagerClean { manager: Manager },
    JournalVacuum { limit: VacuumLimit },
    RemoveSnapRevision { package: String, revision: String },
    FlatpakUninstallUnused,
}

/// What came back of a request.
#[derive(Debug, PartialEq, Eq)]
pub enum OpResult {
    /// It was carried out, and this much came back, as the helper measured.
    Reclaimed { bytes: u64 },
    /// Anything else, described for a log.
    Other { description: String },
}

} // verus!
