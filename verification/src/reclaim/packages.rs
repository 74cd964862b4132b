//! The caches of package managers.
//!
//! A cache is cleaned by the manager that owns it, so that its index and its
//! directory agree. Every manager that is there is asked, not the first.
use vstd::prelude::*;
use vstd::string::*;
use crate::caps::{Capabilities, Capability};
use crate::double::capped;
use crate::error::{AppError, Result};
use crate::op::check_flag;
use crate::order::in_order;
use crate::pkg::capped_add;
use crate::space::{manager_name, Advisory, Category as SpaceCategory, Manager, ReclaimMethod, Reclaimable, Safety};
use super::registry::{candidate_text, candidate_texts, law_a_candidate_is_what_its_view_says, law_what_is_offered_is_returned, largest_first, offers, stopped, Candidate, CandidateText, Category, MethodText, PromiseText};

verus! {

broadcast use vstd::string::group_string_axioms;

/// One package manager's cache.
#[derive(Debug, Clone, Copy)]
pub struct Backend {
    pub manager: Manager,
    pub capability: Capability,
    /// Where downloaded packages accumulate.
    pub cache_dir: &'static str,
    /// What the user sees.
    pub label: &'static str,
}

/// A manager's cache with its texts.
pub struct BackendText {
    pub manager: Manager,
    pub capability: Capability,
    pub cache_dir: Seq<char>,
    pub label: Seq<char>,
}

/// What some caches say.
pub open spec fn backend_texts(v: Seq<Backend>) -> Seq<BackendText> {
    v.map_values(
        |b: Backend|
            BackendText {
                manager: b.manager,
                capability: b.capability,
                cache_dir: b.cache_dir@,
                label: b.label@,
            },
    )
}

/// Every cache that can be cleaned.
pub open spec fn backend_table() -> Seq<BackendText> {
    seq![
        BackendText {
            manager: Manager::Apt,
            capability: Capability::Apt,
            cache_dir: "/var/cache/apt/archives"@,
            label: "APT package cache"@,
        },
        BackendText {
            manager: Manager::Dnf,
            capability: Capability::Dnf,
            cache_dir: "/var/cache/dnf"@,
            label: "DNF package cache"@,
        },
        BackendText {
            manager: Manager::Pacman,
            capability: Capability::Pacman,
            cache_dir: "/var/cache/pacman/pkg"@,
            label: "pacman package cache"@,
        },
        BackendText {
            manager: Manager::Zypper,
            capability: Capability::Zypper,
            cache_dir: "/var/cache/zypp/packages"@,
            label: "zypper package cache"@,
        },
    ]
}

/// Every cache that can be cleaned.
pub fn backends() -> (r: Vec<Backend>)
    ensures
        backend_texts(r@) == backend_table(),
{
    let r = vec![
        Backend {
            manager: Manager::Apt,
            capability: Capability::Apt,
            cache_dir: "/var/cache/apt/archives",
            label: "APT package cache",
        },
        Backend {
            manager: Manager::Dnf,
            capability: Capability::Dnf,
            cache_dir: "/var/cache/dnf",
            label: "DNF package cache",
        },
        Backend {
            manager: Manager::Pacman,
            capability: Capability::Pacman,
            cache_dir: "/var/cache/pacman/pkg",
            label: "pacman package cache",
        },
        Backend {
            manager: Manager::Zypper,
            capability: Capability::Zypper,
            cache_dir: "/var/cache/zypp/packages",
            label: "zypper package cache",
        },
    ];
    assert(backend_texts(r@) =~= backend_table());
    r
}

/// A cache that was looked at: whose it is, and what each of its directories
/// takes.
#[derive(Debug, Clone)]
pub struct CacheFact {
    pub manager: Manager,
    pub label: &'static str,
    /// Path and bytes of each directory.
    pub dirs: Vec<(String, u64)>,
}

/// What some directories take together.
pub open spec fn dirs_total(dirs: Seq<(String, u64)>) -> nat
    decreases dirs.len(),
{
    if dirs.len() == 0 {
        0
    } else {
        dirs_total(dirs.drop_last()) + dirs.last().1 as nat
    }
}

/// The path of the first directory, or nothing.
pub open spec fn first_dir(dirs: Seq<(String, u64)>) -> Seq<char> {
    if dirs.len() > 0 {
        dirs[0].0@
    } else {
        Seq::empty()
    }
}

/// The offer to clean a cache.
pub open spec fn cache_offer(
    manager: Manager,
    label: Seq<char>,
    path: Seq<char>,
    bytes: u64,
) -> CandidateText {
    CandidateText {
        path,
        label,
        bytes,
        safety: Safety::Safe,
        method: MethodText::PackageManager(manager),
        cost: Some(
            "Downloaded package files are removed. "@ + manager_name(manager)
                + " will fetch them again if a package needs reinstalling."@,
        ),
        category: "package_cache"@,
        reclaimable: PromiseText::Exact,
    }
}

/// What is offered of some caches, in order: each that takes space.
pub open spec fn fact_offers(all: Seq<CacheFact>) -> Seq<CandidateText>
    decreases all.len(),
{
    if all.len() == 0 {
        Seq::empty()
    } else {
        let f = all.last();
        let bytes = capped(dirs_total(f.dirs@));
        if bytes > 0 {
            fact_offers(all.drop_last()).push(
                cache_offer(f.manager, f.label@, first_dir(f.dirs@), bytes),
            )
        } else {
            fact_offers(all.drop_last())
        }
    }
}

/// What is offered of the caches of a machine, in order: each whose manager
/// is there and that takes space. `sizes` are in the order of the table.
pub open spec fn machine_offers(
    all: Seq<BackendText>,
    caps: Seq<Capability>,
    sizes: Seq<u64>,
) -> Seq<CandidateText>
    decreases all.len(),
{
    if all.len() == 0 {
        Seq::empty()
    } else {
        let b = all.last();
        let rest = machine_offers(all.drop_last(), caps, sizes);
        if caps.contains(b.capability) && all.len() <= sizes.len() && sizes[all.len() - 1] > 0 {
            rest.push(cache_offer(b.manager, b.label, b.cache_dir, sizes[all.len() - 1]))
        } else {
            rest
        }
    }
}

fn candidate(manager: Manager, label: &str, path: String, bytes: u64) -> (r: Candidate)
    ensures
        candidate_text(r) == cache_offer(manager, label@, path@, bytes),
{
    let mut cost = "Downloaded package files are removed. ".to_owned();
    cost.append(manager.name());
    cost.append(" will fetch them again if a package needs reinstalling.");
    Candidate {
        path,
        label: label.to_owned(),
        bytes,
        safety: Safety::Safe,
        method: ReclaimMethod::PackageManager { manager },
        cost: Some(cost),
        category: "package_cache".to_owned(),
        reclaimable: Reclaimable::Exact,
    }
}

/// The bytes in a cache's directories, as far as 64 bits hold them.
pub fn cache_bytes(dirs: &Vec<(String, u64)>) -> (r: u64)
    ensures
        r == capped(dirs_total(dirs@)),
{
    let mut sum: u64 = 0;
    let mut i: usize = 0;
    assert(dirs@.take(0) =~= Seq::<(String, u64)>::empty());
    while i < dirs.len()
        invariant
            i <= dirs@.len(),
            sum == capped(dirs_total(dirs@.take(i as int))),
        decreases dirs@.len() - i,
    {
        assert(dirs@.take(i + 1).drop_last() =~= dirs@.take(i as int));
        sum = capped_add(sum, dirs[i].1);
        i = i + 1;
    }
    assert(dirs@.take(i as int) =~= dirs@);
    sum
}

fn offer_facts(entries: &Vec<CacheFact>) -> (r: Vec<Candidate>)
    ensures
        candidate_texts(r@) == fact_offers(entries@),
{
    let mut out: Vec<Candidate> = Vec::new();
    let mut i: usize = 0;
    assert(entries@.take(0) =~= Seq::<CacheFact>::empty());
    assert(candidate_texts(out@) =~= Seq::<CandidateText>::empty());
    while i < entries.len()
        invariant
            i <= entries@.len(),
            candidate_texts(out@) == fact_offers(entries@.take(i as int)),
        decreases entries@.len() - i,
    {
        assert(entries@.take(i + 1).drop_last() =~= entries@.take(i as int));
        let f = &entries[i];
        let bytes: u64 = cache_bytes(&f.dirs);
        if bytes > 0 {
            let path = if f.dirs.len() > 0 {
                f.dirs[0].0.clone()
            } else {
                String::new()
            };
            let ghost before = candidate_texts(out@);
            let c = candidate(f.manager, f.label, path, bytes);
            out.push(c);
            assert(candidate_texts(out@) =~= before.push(candidate_text(c)));
        }
        i = i + 1;
    }
    assert(entries@.take(i as int) =~= entries@);
    out
}

fn offer_machine(caps: &Capabilities, sizes: &Vec<u64>) -> (r: Vec<Candidate>)
    ensures
        candidate_texts(r@) == machine_offers(backend_table(), caps.found@, sizes@),
{
    let known = backends();
    let ghost all = backend_texts(known@);
    let mut out: Vec<Candidate> = Vec::new();
    let mut i: usize = 0;
    assert(all.take(0) =~= Seq::<BackendText>::empty());
    assert(candidate_texts(out@) =~= Seq::<CandidateText>::empty());
    while i < known.len()
        invariant
            i <= known@.len(),
            all == backend_texts(known@),
            all == backend_table(),
            candidate_texts(out@) == machine_offers(all.take(i as int), caps.found@, sizes@),
        decreases known@.len() - i,
    {
        assert(all.take(i + 1).drop_last() =~= all.take(i as int));
        if caps.has(known[i].capability) && i < sizes.len() && sizes[i] > 0 {
            let ghost before = candidate_texts(out@);
            let c = candidate(
                known[i].manager,
                known[i].label,
                known[i].cache_dir.to_owned(),
                sizes[i],
            );
            out.push(c);
            assert(candidate_texts(out@) =~= before.push(candidate_text(c)));
        }
        i = i + 1;
    }
    assert(all.take(i as int) =~= all);
    out
}

/// What the category holds.
pub const MEANING: &'static str =
    "Package files the package manager downloaded and has already installed. They are fetched again if a package has to be reinstalled.";

/// What the category has looked at.
#[derive(Debug, Clone)]
pub enum Looked {
    /// These caches, whatever the machine has.
    At(Vec<CacheFact>),
    /// The caches of a machine: what it has, and what each takes.
    Machine(Capabilities, Vec<u64>),
}

/// The caches of the package managers on a machine.
#[derive(Debug, Clone)]
pub struct PackageCacheCategory {
    looked: Looked,
}

impl PackageCacheCategory {
    /// What the category has looked at.
    pub closed spec fn seen(&self) -> Looked {
        self.looked
    }

    /// A category that has seen no package manager.
    pub fn new() -> (r: Self)
        ensures
            r.seen() matches Looked::Machine(c, s) && c.found@.len() == 0 && s@.len() == 0,
    {
        PackageCacheCategory {
            looked: Looked::Machine(Capabilities { found: Vec::new() }, Vec::new()),
        }
    }

    /// A category over given caches.
    pub fn with(entries: Vec<CacheFact>) -> (r: Self)
        ensures
            r.seen() == Looked::At(entries),
    {
        PackageCacheCategory { looked: Looked::At(entries) }
    }

    /// A category over the caches of a machine, with what each takes, in the
    /// order in which they are known.
    pub fn at(caps: Capabilities, sizes: Vec<u64>) -> (r: Self)
        ensures
            r.seen() == Looked::Machine(caps, sizes),
    {
        PackageCacheCategory { looked: Looked::Machine(caps, sizes) }
    }
}

impl Default for PackageCacheCategory {
    fn default() -> (r: Self)
        ensures
            r.seen() matches Looked::Machine(c, s) && c.found@.len() == 0 && s@.len() == 0,
    {
        PackageCacheCategory::new()
    }
}

/// Whether a machine has a manager of one of these caches.
pub open spec fn any_there(all: Seq<BackendText>, caps: Seq<Capability>) -> bool {
    exists|i: int| 0 <= i < all.len() && caps.contains((#[trigger] all[i]).capability)
}

fn has_any(caps: &Capabilities) -> (r: bool)
    ensures
        r == any_there(backend_table(), caps.found@),
{
    let known = backends();
    let ghost all = backend_texts(known@);
    let mut i: usize = 0;
    while i < known.len()
        invariant
            i <= known@.len(),
            all == backend_texts(known@),
            all == backend_table(),
            forall|k: int| 0 <= k < i ==> !caps.found@.contains((#[trigger] all[k]).capability),
        decreases known@.len() - i,
    {
        assert(all[i as int].capability == known@[i as int].capability);
        if caps.has(known[i].capability) {
            assert(caps.found@.contains(all[i as int].capability));
            return true;
        }
        i = i + 1;
    }
    false
}

impl Category for PackageCacheCategory {
    open spec fn ident(&self) -> Seq<char> {
        "package_cache"@
    }

    open spec fn title(&self) -> Seq<char> {
        "Package caches"@
    }

    open spec fn meaning(&self) -> Seq<char> {
        MEANING@
    }

    open spec fn kind(&self) -> SpaceCategory {
        SpaceCategory::PackageCache
    }

    open spec fn usable(&self) -> bool {
        match self.seen() {
            Looked::At(_) => true,
            Looked::Machine(caps, _) => any_there(backend_table(), caps.found@),
        }
    }

    open spec fn proposes(&self, cancelled: bool, r: Result<Vec<Candidate>>) -> bool {
        if cancelled {
            stopped(r)
        } else {
            match self.seen() {
                Looked::At(entries) => offers(r, in_order(fact_offers(entries@))),
                Looked::Machine(caps, sizes) => offers(
                    r,
                    in_order(machine_offers(backend_table(), caps.found@, sizes@)),
                ),
            }
        }
    }

    open spec fn advises(&self, r: Seq<Advisory>) -> bool {
        r.len() == 0
    }

    fn id(&self) -> &'static str {
        "package_cache"
    }

    fn label(&self) -> &'static str {
        "Package caches"
    }

    fn explains(&self) -> &'static str {
        MEANING
    }

    fn space_category(&self) -> SpaceCategory {
        SpaceCategory::PackageCache
    }

    fn available(&self) -> bool {
        match &self.looked {
            Looked::At(_) => true,
            Looked::Machine(caps, _) => has_any(caps),
        }
    }

    fn advisories(&self) -> Vec<Advisory> {
        Vec::new()
    }

    fn candidates(&self, cancelled: bool) -> Result<Vec<Candidate>> {
        if let Err(e) = check_flag(cancelled) {
            return Err(e);
        }
        let found = match &self.looked {
            Looked::At(entries) => offer_facts(entries),
            Looked::Machine(caps, sizes) => offer_machine(caps, sizes),
        };
        Ok(largest_first(found))
    }
}

/// A machine with several managers reports all of them: each that is there,
/// and whose cache takes space, is offered.
pub proof fn law_every_manager_is_reported(
    all: Seq<BackendText>,
    caps: Seq<Capability>,
    sizes: Seq<u64>,
    i: int,
)
    requires
        0 <= i < all.len() <= sizes.len(),
        caps.contains(all[i].capability),
        sizes[i] > 0,
    ensures
        machine_offers(all, caps, sizes).contains(
            cache_offer(all[i].manager, all[i].label, all[i].cache_dir, sizes[i]),
        ),
    decreases all.len(),
{
    let wanted = cache_offer(all[i].manager, all[i].label, all[i].cache_dir, sizes[i]);
    let rest = machine_offers(all.drop_last(), caps, sizes);
    let whole = machine_offers(all, caps, sizes);
    if i < all.len() - 1 {
        law_every_manager_is_reported(all.drop_last(), caps, sizes, i);
        let k = choose|k: int| 0 <= k < rest.len() && rest[k] == wanted;
        assert(whole[k] == wanted);
    } else {
        assert(whole[whole.len() - 1] == wanted);
    }
}

/// A manager's cache is cleaned by that manager: each offer is of a manager
/// that the machine has, for what its cache takes, at its cache's place.
pub proof fn law_a_cache_is_cleaned_by_its_own_manager(
    all: Seq<BackendText>,
    caps: Seq<Capability>,
    sizes: Seq<u64>,
    b: BackendText,
)
    requires
        all.len() < sizes.len(),
    ensures
        ({
            let before = machine_offers(all, caps, sizes);
            let more = machine_offers(all.push(b), caps, sizes);
            let bytes = sizes[all.len() as int];
            if caps.contains(b.capability) && bytes > 0 {
                &&& more.len() == before.len() + 1
                &&& more.drop_last() == before
                &&& more.last().method == MethodText::PackageManager(b.manager)
                &&& more.last().path == b.cache_dir
                &&& more.last().bytes == bytes
                &&& more.last().cost is Some
            } else {
                more == before
            }
        }),
{
    assert(all.push(b).drop_last() =~= all);
    let before = machine_offers(all, caps, sizes);
    assert(before.push(
        cache_offer(b.manager, b.label, b.cache_dir, sizes[all.len() as int]),
    ).drop_last() =~= before);
}

/// Each manager is there by its own tool and keeps its cache at its own place.
pub proof fn law_managers_are_not_confused(k: int)
    requires
        0 <= k < backend_table().len(),
    ensures
        match backend_table()[k].manager {
            Manager::Apt => backend_table()[k].capability == Capability::Apt
                && backend_table()[k].cache_dir == "/var/cache/apt/archives"@,
            Manager::Dnf => backend_table()[k].capability == Capability::Dnf
                && backend_table()[k].cache_dir == "/var/cache/dnf"@,
            Manager::Pacman => backend_table()[k].capability == Capability::Pacman
                && backend_table()[k].cache_dir == "/var/cache/pacman/pkg"@,
            Manager::Zypper => backend_table()[k].capability == Capability::Zypper
                && backend_table()[k].cache_dir == "/var/cache/zypp/packages"@,
        },
        backend_table().len() == 4,
        forall|j: int|
            0 <= j < backend_table().len() && j != k ==> (#[trigger] backend_table()[j]).manager
                != backend_table()[k].manager,
{
}

/// A given cache is cleaned by its own manager too, for what its directories
/// take together.
pub proof fn law_a_given_cache_counts_all_its_directories(all: Seq<CacheFact>, f: CacheFact)
    ensures
        ({
            let before = fact_offers(all);
            let more = fact_offers(all.push(f));
            if dirs_total(f.dirs@) > 0 {
                &&& more.len() == before.len() + 1
                &&& more.drop_last() == before
                &&& more.last().method == MethodText::PackageManager(f.manager)
                &&& dirs_total(f.dirs@) <= u64::MAX ==> more.last().bytes == dirs_total(f.dirs@)
                &&& f.dirs@.len() > 0 ==> more.last().path == f.dirs@[0].0@
            } else {
                more == before
            }
        }),
{
    assert(all.push(f).drop_last() =~= all);
    let before = fact_offers(all);
    assert(before.push(
        cache_offer(f.manager, f.label@, first_dir(f.dirs@), capped(dirs_total(f.dirs@))),
    ).drop_last() =~= before);
}

/// Each directory of a cache adds what it takes.
pub proof fn law_every_directory_counts(dirs: Seq<(String, u64)>, d: (String, u64))
    ensures
        dirs_total(dirs.push(d)) == dirs_total(dirs) + d.1,
        dirs_total(Seq::<(String, u64)>::empty()) == 0,
{
    assert(dirs.push(d).drop_last() =~= dirs);
}

/// Whether a machine has a manager whose cache takes this much.
pub open spec fn has_cache(
    caps: Seq<Capability>,
    sizes: Seq<u64>,
    manager: Manager,
    bytes: u64,
) -> bool {
    exists|k: int|
        0 <= k < 4 && k < sizes.len() && (#[trigger] backend_table()[k]).manager == manager
            && caps.contains(backend_table()[k].capability) && sizes[k] == bytes && bytes > 0
}

/// What is offered of the caches of a machine's managers is each one's own, to
/// be cleaned by that manager, for what it takes.
pub proof fn law_only_present_managers_clean_their_caches(
    c: PackageCacheCategory,
    caps: Capabilities,
    sizes: Vec<u64>,
    r: Result<Vec<Candidate>>,
    v: Vec<Candidate>,
    i: int,
)
    requires
        call_ensures(<PackageCacheCategory as Category>::candidates, (&c, false), r),
        r == Ok::<Vec<Candidate>, AppError>(v),
        c.seen() == Looked::Machine(caps, sizes),
        0 <= i < v@.len(),
    ensures
        v@[i].method matches ReclaimMethod::PackageManager { manager } && has_cache(
            caps.found@,
            sizes@,
            manager,
            v@[i].bytes,
        ),
{
    let found = machine_offers(backend_table(), caps.found@, sizes@);
    law_what_is_offered_is_returned(v, in_order(found));
    law_a_candidate_is_what_its_view_says(v@[i]);
    crate::order::law_sorting_keeps_every_element(found);
    found.to_multiset_ensures();
    in_order(found).to_multiset_ensures();
    let x = in_order(found)[i];
    assert(in_order(found).contains(x));
    assert(in_order(found).to_multiset().count(x) == found.to_multiset().count(x));
    let j = choose|j: int| 0 <= j < found.len() && found[j] == x;
    let k = lemma_offered_backend(backend_table(), caps.found@, sizes@, j);
    assert(backend_table()[k].manager == backend_table()[k].manager);
}

proof fn lemma_offered_backend(
    all: Seq<BackendText>,
    caps: Seq<Capability>,
    sizes: Seq<u64>,
    i: int,
) -> (k: int)
    requires
        0 <= i < machine_offers(all, caps, sizes).len(),
    ensures
        0 <= k < all.len(),
        k < sizes.len(),
        caps.contains(all[k].capability),
        sizes[k] > 0,
        machine_offers(all, caps, sizes)[i] == cache_offer(
            all[k].manager,
            all[k].label,
            all[k].cache_dir,
            sizes[k],
        ),
    decreases all.len(),
{
    if i < machine_offers(all.drop_last(), caps, sizes).len() {
        lemma_offered_backend(all.drop_last(), caps, sizes, i)
    } else {
        all.len() - 1
    }
}

} // verus!
