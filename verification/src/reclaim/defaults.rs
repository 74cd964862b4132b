//! The categories that are asked unless something else is said.
use vstd::prelude::*;
use crate::caps::{Capabilities, Capability};
use crate::error::{AppError, Result};
use crate::pkg::flatpak::{Ref, TreeFact};
use crate::pkg::snap::Revision;
use crate::pkg::{Package, ResidualConfig};
use crate::space::{Category as SpaceCategory, VacuumLimit};
use super::artifacts::{BuildArtifactCategory, PackageStoreCategory, StoreFact};
use super::caches::AppCacheCategory;
use super::containers::ContainerCategory;
use super::kernels::{OldKernelCategory, ResidualConfigCategory};
use super::logs::{JournalCategory, JournalDir, LogCategory};
use super::packages::{Looked, PackageCacheCategory};
use super::registry::{answers, Category, Entry, Registry, TrashCategory, TrashContents};
use super::snaps::{FlatpakUnusedCategory, SnapRevisionCategory};

verus! {

/// Every category, with what was seen for it.
#[derive(Debug)]
pub struct Defaults {
    pub trash: TrashCategory,
    pub caches: AppCacheCategory,
    pub logs: LogCategory,
    pub journal: JournalCategory,
    pub packages: PackageCacheCategory,
    pub kernels: OldKernelCategory,
    pub leftovers: ResidualConfigCategory,
    pub snaps: SnapRevisionCategory,
    pub runtimes: FlatpakUnusedCategory,
    pub artifacts: BuildArtifactCategory,
    pub stores: PackageStoreCategory,
    pub containers: ContainerCategory,
}

impl Defaults {
    /// Every category, with nothing seen.
    pub fn new() -> (r: Self)
        ensures
            r.trash.seen() == Ok::<Option<TrashContents>, AppError>(None),
            r.caches.listing() is None,
            r.logs.listing() is None,
            r.journal.limit() == (VacuumLimit::Size { mebibytes: 200 }),
            r.journal.seen() == Seq::<JournalDir>::empty(),
            !r.journal.manageable(),
            r.packages.seen() matches Looked::Machine(c, s) && c.found@.len() == 0 && s@.len() == 0,
            !r.kernels.there(),
            r.kernels.listed() == Ok::<Seq<Package>, AppError>(Seq::empty()),
            r.kernels.running() is None,
            !r.leftovers.there(),
            r.leftovers.listed() == Ok::<Seq<ResidualConfig>, AppError>(Seq::empty()),
            !r.snaps.there(),
            r.snaps.listed() == Ok::<Seq<Revision>, AppError>(Seq::empty()),
            !r.runtimes.there(),
            r.runtimes.listed() == Ok::<Seq<Ref>, AppError>(Seq::empty()),
            r.runtimes.deployed() == Seq::<Vec<TreeFact>>::empty(),
            r.runtimes.objects() is None,
            r.artifacts.scanned() is None,
            r.stores.root() is None,
            r.stores.facts() == Seq::<StoreFact>::empty(),
            !r.containers.installed(),
            r.containers.account() is None,
            r.containers.details() is None,
    {
        Defaults {
            trash: TrashCategory::new(),
            caches: AppCacheCategory::new(),
            logs: LogCategory::new(),
            journal: JournalCategory::new(),
            packages: PackageCacheCategory::new(),
            kernels: OldKernelCategory::new(),
            leftovers: ResidualConfigCategory::new(),
            snaps: SnapRevisionCategory::new(),
            runtimes: FlatpakUnusedCategory::new(),
            artifacts: BuildArtifactCategory::new(),
            stores: PackageStoreCategory::new(),
            containers: ContainerCategory::new(),
        }
    }
}

/// Whether some entries are what came of asking every category, in their
/// order. Trash stays first: its consequences the user has accepted already.
pub open spec fn asked_all(e: Seq<Entry>, d: Defaults, cancelled: bool) -> bool {
    &&& e.len() == 12
    &&& answers(e[0], d.trash, cancelled)
    &&& answers(e[1], d.caches, cancelled)
    &&& answers(e[2], d.logs, cancelled)
    &&& answers(e[3], d.journal, cancelled)
    &&& answers(e[4], d.packages, cancelled)
    &&& answers(e[5], d.kernels, cancelled)
    &&& answers(e[6], d.leftovers, cancelled)
    &&& answers(e[7], d.snaps, cancelled)
    &&& answers(e[8], d.runtimes, cancelled)
    &&& answers(e[9], d.artifacts, cancelled)
    &&& answers(e[10], d.stores, cancelled)
    &&& answers(e[11], d.containers, cancelled)
}

impl Registry {
    /// A registry of every category, each asked for what was seen for it.
    pub fn with_defaults(d: &Defaults, cancelled: bool) -> (r: Self)
        ensures
            asked_all(r.entries@, *d, cancelled),
    {
        let mut registry = Registry::new();
        registry.register(Entry::of(&d.trash, cancelled));
        registry.register(Entry::of(&d.caches, cancelled));
        registry.register(Entry::of(&d.logs, cancelled));
        registry.register(Entry::of(&d.journal, cancelled));
        registry.register(Entry::of(&d.packages, cancelled));
        registry.register(Entry::of(&d.kernels, cancelled));
        registry.register(Entry::of(&d.leftovers, cancelled));
        registry.register(Entry::of(&d.snaps, cancelled));
        registry.register(Entry::of(&d.runtimes, cancelled));
        registry.register(Entry::of(&d.artifacts, cancelled));
        registry.register(Entry::of(&d.stores, cancelled));
        registry.register(Entry::of(&d.containers, cancelled));
        registry
    }
}

/// Every category is asked, each under its own identifier and in this order.
pub proof fn law_every_category_is_asked(e: Seq<Entry>, d: Defaults, cancelled: bool)
    requires
        asked_all(e, d, cancelled),
    ensures
        e.len() == 12,
        e[0].id@ == "trash"@,
        e[1].id@ == "app_cache"@,
        e[2].id@ == "rotated_logs"@,
        e[3].id@ == "journal"@,
        e[4].id@ == "package_cache"@,
        e[5].id@ == "old_kernels"@,
        e[6].id@ == "residual_config"@,
        e[7].id@ == "snap_revisions"@,
        e[8].id@ == "flatpak_unused"@,
        e[9].id@ == "build_artifacts"@,
        e[10].id@ == "package_stores"@,
        e[11].id@ == "containers"@,
        forall|i: int| 0 <= i < e.len() ==> cancelled == ((#[trigger] e[i]).answer is Stopped),
{
}

/// Each category runs exactly where what it needs is there, and its findings
/// count as space of their own kind.
pub proof fn law_categories_run_where_their_tool_is(
    caps: Capabilities,
    installed: Result<Vec<Package>>,
    release: Option<String>,
    kernels: OldKernelCategory,
    residual: Result<Vec<ResidualConfig>>,
    leftovers: ResidualConfigCategory,
    listed: Result<Vec<Revision>>,
    snaps: SnapRevisionCategory,
    usage: Option<String>,
    detail: Option<String>,
    containers: ContainerCategory,
    trash: TrashCategory,
)
    requires
        call_ensures(OldKernelCategory::at, (&caps, installed, release), kernels),
        call_ensures(ResidualConfigCategory::at, (&caps, residual), leftovers),
        call_ensures(SnapRevisionCategory::at, (&caps, listed), snaps),
        call_ensures(ContainerCategory::at, (&caps, usage, detail), containers),
    ensures
        kernels.usable() == caps.found@.contains(Capability::Apt),
        leftovers.usable() == caps.found@.contains(Capability::Apt),
        snaps.usable() == caps.found@.contains(Capability::Snap),
        containers.usable() == (caps.found@.contains(Capability::Docker) && usage is Some),
        trash.usable(),
        kernels.kind() == SpaceCategory::PackagePayload,
        leftovers.kind() == SpaceCategory::OrphanedConfig,
        snaps.kind() == SpaceCategory::PackagePayload,
        containers.kind() == SpaceCategory::ContainerImage,
        trash.kind() == SpaceCategory::Trash,
{
}

} // verus!
