//! Superseded kernels, and the configuration that removed packages left.
//!
//! The running kernel and the newest one are never offered. The helper
//! derives that again before it removes anything.
use vstd::prelude::*;
use vstd::string::*;
use crate::caps::{Capabilities, Capability};
use crate::double::capped;
use crate::error::{AppError, Result};
use crate::op::check_flag;
use crate::pkg::capped_add;
use crate::pkg::dpkg::{base_of, grouped, kernel_base, members, offers_of, recorded_total, removable_kernels, running_kernel, KernelSet};
use crate::pkg::{Package, ResidualConfig};
use crate::space::{Advisory, Category as SpaceCategory, ReclaimMethod, Reclaimable, RemovableKind, Safety};
use crate::text::{decimal, opt_text, push_u64, texts, trimmed};
use super::registry::{candidate_text, candidate_texts, law_a_candidate_is_what_its_view_says, law_what_is_offered_is_returned, offers, plural, plural_ending, stopped, Candidate, CandidateText, Category, MethodText, PromiseText};

verus! {

broadcast use vstd::string::group_string_axioms;

/// The names of some packages.
pub open spec fn package_names(v: Seq<Package>) -> Seq<Seq<char>> {
    v.map_values(|p: Package| p.name@)
}

/// The offer to remove a kernel: all of its packages in one decision.
pub open spec fn kernel_offer(set: KernelSet) -> CandidateText {
    let version = set.version.0@;
    CandidateText {
        path: "kernel "@ + version,
        label: "Linux "@ + version + " ("@ + decimal(set.packages@.len()) + " packages)"@,
        bytes: capped(recorded_total(set.packages@)),
        safety: Safety::Review,
        method: MethodText::Packages(RemovableKind::OldKernel, package_names(set.packages@)),
        cost: Some(
            "Removes Linux "@ + version
                + " entirely. You will no longer be able to boot into it if a newer kernel turns out to have a problem."@,
        ),
        category: "old_kernels"@,
        reclaimable: PromiseText::Exact,
    }
}

/// What is offered of some kernels.
pub open spec fn kernel_offers(sets: Seq<KernelSet>) -> Seq<CandidateText> {
    sets.map_values(|s: KernelSet| kernel_offer(s))
}

/// Whether these are the offers for some packages and a running kernel: one
/// for each kernel that is safe to remove, oldest first.
pub open spec fn kernels_offered(
    packages: Seq<Package>,
    running: Option<Seq<char>>,
    r: Result<Vec<Candidate>>,
) -> bool {
    exists|sets: Seq<KernelSet>, bases: Seq<Seq<char>>, chosen: Seq<KernelSet>| #[trigger]
        grouped(packages, sets, bases) && #[trigger] offers_of(sets, running, chosen) && offers(
            r,
            kernel_offers(chosen),
        )
}

fn names_of(packages: &Vec<Package>) -> (r: Vec<String>)
    ensures
        texts(r@) == package_names(packages@),
{
    let mut out: Vec<String> = Vec::new();
    let mut i: usize = 0;
    while i < packages.len()
        invariant
            i <= packages@.len(),
            out@.len() == i,
            forall|k: int| 0 <= k < i ==> (#[trigger] out@[k])@ == packages@[k].name@,
        decreases packages@.len() - i,
    {
        out.push(packages[i].name.clone());
        i = i + 1;
    }
    assert(texts(out@) =~= package_names(packages@));
    out
}

fn offer_kernel(set: &KernelSet) -> (r: Candidate)
    ensures
        candidate_text(r) == kernel_offer(*set),
{
    let version = set.version.0.as_str();
    let mut path = "kernel ".to_owned();
    path.append(version);
    let mut label = "Linux ".to_owned();
    label.append(version);
    label.append(" (");
    push_u64(&mut label, set.packages.len() as u64);
    label.append(" packages)");
    let mut cost = "Removes Linux ".to_owned();
    cost.append(version);
    cost.append(
        " entirely. You will no longer be able to boot into it if a newer kernel turns out to have a problem.",
    );
    Candidate {
        path,
        label,
        bytes: set.bytes(),
        safety: Safety::Review,
        method: ReclaimMethod::Packages {
            kind: RemovableKind::OldKernel,
            names: names_of(&set.packages),
        },
        cost: Some(cost),
        category: "old_kernels".to_owned(),
        reclaimable: Reclaimable::Exact,
    }
}

/// What the category of kernels holds.
pub const KERNELS_MEANING: &'static str =
    "Kernels that a newer one has superseded, with their modules and headers. You can no longer boot into one that is gone. The running kernel and the newest one are never touched.";

/// Superseded kernels, with what the package manager lists.
#[derive(Debug)]
pub struct OldKernelCategory {
    present: bool,
    installed: Result<Vec<Package>>,
    release: Option<String>,
}

/// What a list of packages holds, or why there is none.
pub open spec fn listing_of(r: Result<Vec<Package>>) -> core::result::Result<
    Seq<Package>,
    AppError,
> {
    match r {
        Ok(v) => Ok(v@),
        Err(e) => Err(e),
    }
}

impl OldKernelCategory {
    /// Whether the package manager is there.
    pub closed spec fn there(&self) -> bool {
        self.present
    }

    /// The packages that are installed, or why they could not be listed.
    pub closed spec fn listed(&self) -> core::result::Result<Seq<Package>, AppError> {
        listing_of(self.installed)
    }

    /// What the running kernel says that it is.
    pub closed spec fn running(&self) -> Option<Seq<char>> {
        opt_text(self.release)
    }

    /// A category that has seen no package manager.
    pub fn new() -> (r: Self)
        ensures
            !r.there(),
            r.listed() == Ok::<Seq<Package>, AppError>(Seq::empty()),
            r.running() is None,
    {
        OldKernelCategory { present: false, installed: Ok(Vec::new()), release: None }
    }

    /// A category over what is installed and what is running.
    pub fn at(caps: &Capabilities, installed: Result<Vec<Package>>, release: Option<String>) -> (r:
        Self)
        ensures
            r.there() == caps.found@.contains(Capability::Apt),
            r.listed() == listing_of(installed),
            r.running() == opt_text(release),
    {
        OldKernelCategory { present: caps.has(Capability::Apt), installed, release }
    }
}

impl Default for OldKernelCategory {
    fn default() -> (r: Self)
        ensures
            !r.there(),
            r.listed() == Ok::<Seq<Package>, AppError>(Seq::empty()),
            r.running() is None,
    {
        OldKernelCategory::new()
    }
}

/// The version in what a running kernel says that it is.
pub open spec fn running_version(release: Option<Seq<char>>) -> Option<Seq<char>> {
    match release {
        Some(t) => Some(trimmed(t)),
        None => None,
    }
}

impl Category for OldKernelCategory {
    open spec fn ident(&self) -> Seq<char> {
        "old_kernels"@
    }

    open spec fn title(&self) -> Seq<char> {
        "Old kernels"@
    }

    open spec fn meaning(&self) -> Seq<char> {
        KERNELS_MEANING@
    }

    open spec fn kind(&self) -> SpaceCategory {
        SpaceCategory::PackagePayload
    }

    open spec fn usable(&self) -> bool {
        self.there()
    }

    open spec fn proposes(&self, cancelled: bool, r: Result<Vec<Candidate>>) -> bool {
        if cancelled {
            stopped(r)
        } else {
            match self.listed() {
                Ok(packages) => kernels_offered(packages, running_version(self.running()), r),
                Err(error) => r == Err::<Vec<Candidate>, AppError>(error),
            }
        }
    }

    open spec fn advises(&self, r: Seq<Advisory>) -> bool {
        r.len() == 0
    }

    fn id(&self) -> &'static str {
        "old_kernels"
    }

    fn label(&self) -> &'static str {
        "Old kernels"
    }

    fn explains(&self) -> &'static str {
        KERNELS_MEANING
    }

    fn space_category(&self) -> SpaceCategory {
        SpaceCategory::PackagePayload
    }

    fn available(&self) -> bool {
        self.present
    }

    fn advisories(&self) -> Vec<Advisory> {
        Vec::new()
    }

    fn candidates(&self, cancelled: bool) -> Result<Vec<Candidate>> {
        if let Err(e) = check_flag(cancelled) {
            return Err(e);
        }
        let packages = match &self.installed {
            Ok(v) => v,
            Err(e) => {
                return Err(e.clone());
            },
        };
        let running = match &self.release {
            Some(t) => running_kernel(Some(t.as_str())),
            None => running_kernel(None),
        };
        let sets = match &running {
            Some(v) => removable_kernels(packages, Some(v)),
            None => removable_kernels(packages, None),
        };
        let ghost run = running_version(self.running());
        assert(exists|all: Seq<KernelSet>, bases: Seq<Seq<char>>| #[trigger]
            grouped(packages@, all, bases) && offers_of(all, run, sets@));
        let mut out: Vec<Candidate> = Vec::new();
        let mut i: usize = 0;
        while i < sets.len()
            invariant
                i <= sets@.len(),
                out@.len() == i,
                forall|k: int|
                    0 <= k < i ==> candidate_text(#[trigger] out@[k]) == kernel_offer(sets@[k]),
            decreases sets@.len() - i,
        {
            out.push(offer_kernel(&sets[i]));
            i = i + 1;
        }
        assert(candidate_texts(out@) =~= kernel_offers(sets@));
        let r: Result<Vec<Candidate>> = Ok(out);
        assert(offers(r, kernel_offers(sets@)));
        assert(kernels_offered(packages@, run, r));
        r
    }
}

// ---------------------------------------------------------------------------
// Residual configuration
// ---------------------------------------------------------------------------

/// What some leftovers take together.
pub open spec fn leftover_total(v: Seq<ResidualConfig>) -> nat
    decreases v.len(),
{
    if v.len() == 0 {
        0
    } else {
        leftover_total(v.drop_last()) + v.last().bytes as nat
    }
}

/// The names of some leftovers.
pub open spec fn leftover_names(v: Seq<ResidualConfig>) -> Seq<Seq<char>> {
    v.map_values(|r: ResidualConfig| r.name@)
}

/// The offer to purge leftovers, all in one decision.
pub open spec fn leftover_offer(v: Seq<ResidualConfig>) -> CandidateText {
    CandidateText {
        path: "removed packages"@,
        label: "Configuration from "@ + decimal(v.len()) + " removed package"@ + plural(v.len()),
        bytes: capped(leftover_total(v)),
        safety: Safety::Review,
        method: MethodText::Packages(RemovableKind::ResidualConfig, leftover_names(v)),
        cost: Some(
            "Purges settings left behind by "@ + decimal(v.len()) + " package"@ + plural(v.len())
                + " you already removed. If you reinstall one, it starts from defaults."@,
        ),
        category: "residual_config"@,
        reclaimable: PromiseText::Exact,
    }
}

/// What is offered of some leftovers: nothing where there are none.
pub open spec fn leftover_offers(v: Seq<ResidualConfig>) -> Seq<CandidateText> {
    if v.len() == 0 {
        Seq::empty()
    } else {
        seq![leftover_offer(v)]
    }
}

/// What the category of leftovers holds.
pub const LEFTOVERS_MEANING: &'static str =
    "Settings of packages that were removed without their configuration. If you install one again, it starts from defaults.";

/// Configuration left behind by packages that were removed.
#[derive(Debug)]
pub struct ResidualConfigCategory {
    present: bool,
    residual: Result<Vec<ResidualConfig>>,
}

/// What a list of leftovers holds, or why there is none.
pub open spec fn leftovers_of(r: Result<Vec<ResidualConfig>>) -> core::result::Result<
    Seq<ResidualConfig>,
    AppError,
> {
    match r {
        Ok(v) => Ok(v@),
        Err(e) => Err(e),
    }
}

impl ResidualConfigCategory {
    /// Whether the package manager is there.
    pub closed spec fn there(&self) -> bool {
        self.present
    }

    /// What was left behind, or why it could not be listed.
    pub closed spec fn listed(&self) -> core::result::Result<Seq<ResidualConfig>, AppError> {
        leftovers_of(self.residual)
    }

    /// A category that has seen no package manager.
    pub fn new() -> (r: Self)
        ensures
            !r.there(),
            r.listed() == Ok::<Seq<ResidualConfig>, AppError>(Seq::empty()),
    {
        ResidualConfigCategory { present: false, residual: Ok(Vec::new()) }
    }

    /// A category over what was left behind.
    pub fn at(caps: &Capabilities, residual: Result<Vec<ResidualConfig>>) -> (r: Self)
        ensures
            r.there() == caps.found@.contains(Capability::Apt),
            r.listed() == leftovers_of(residual),
    {
        ResidualConfigCategory { present: caps.has(Capability::Apt), residual }
    }
}

impl Default for ResidualConfigCategory {
    fn default() -> (r: Self)
        ensures
            !r.there(),
            r.listed() == Ok::<Seq<ResidualConfig>, AppError>(Seq::empty()),
    {
        ResidualConfigCategory::new()
    }
}

impl Category for ResidualConfigCategory {
    open spec fn ident(&self) -> Seq<char> {
        "residual_config"@
    }

    open spec fn title(&self) -> Seq<char> {
        "Leftover configuration"@
    }

    open spec fn meaning(&self) -> Seq<char> {
        LEFTOVERS_MEANING@
    }

    open spec fn kind(&self) -> SpaceCategory {
        SpaceCategory::OrphanedConfig
    }

    open spec fn usable(&self) -> bool {
        self.there()
    }

    open spec fn proposes(&self, cancelled: bool, r: Result<Vec<Candidate>>) -> bool {
        if cancelled {
            stopped(r)
        } else {
            match self.listed() {
                Ok(v) => offers(r, leftover_offers(v)),
                Err(error) => r == Err::<Vec<Candidate>, AppError>(error),
            }
        }
    }

    open spec fn advises(&self, r: Seq<Advisory>) -> bool {
        r.len() == 0
    }

    fn id(&self) -> &'static str {
        "residual_config"
    }

    fn label(&self) -> &'static str {
        "Leftover configuration"
    }

    fn explains(&self) -> &'static str {
        LEFTOVERS_MEANING
    }

    fn space_category(&self) -> SpaceCategory {
        SpaceCategory::OrphanedConfig
    }

    fn available(&self) -> bool {
        self.present
    }

    fn advisories(&self) -> Vec<Advisory> {
        Vec::new()
    }

    fn candidates(&self, cancelled: bool) -> Result<Vec<Candidate>> {
        if let Err(e) = check_flag(cancelled) {
            return Err(e);
        }
        let residual = match &self.residual {
            Ok(v) => v,
            Err(e) => {
                return Err(e.clone());
            },
        };
        let mut out: Vec<Candidate> = Vec::new();
        if residual.len() == 0 {
            assert(candidate_texts(out@) =~= Seq::<CandidateText>::empty());
            return Ok(out);
        }
        let mut bytes: u64 = 0;
        let mut names: Vec<String> = Vec::new();
        let mut i: usize = 0;
        assert(residual@.take(0) =~= Seq::<ResidualConfig>::empty());
        while i < residual.len()
            invariant
                i <= residual@.len(),
                bytes == capped(leftover_total(residual@.take(i as int))),
                names@.len() == i,
                forall|k: int| 0 <= k < i ==> (#[trigger] names@[k])@ == residual@[k].name@,
            decreases residual@.len() - i,
        {
            assert(residual@.take(i + 1).drop_last() =~= residual@.take(i as int));
            bytes = capped_add(bytes, residual[i].bytes);
            names.push(residual[i].name.clone());
            i = i + 1;
        }
        assert(residual@.take(i as int) =~= residual@);
        assert(texts(names@) =~= leftover_names(residual@));
        let count: usize = residual.len();
        let mut label = "Configuration from ".to_owned();
        push_u64(&mut label, count as u64);
        label.append(" removed package");
        label.append(plural_ending(count));
        let mut cost = "Purges settings left behind by ".to_owned();
        push_u64(&mut cost, count as u64);
        cost.append(" package");
        cost.append(plural_ending(count));
        cost.append(" you already removed. If you reinstall one, it starts from defaults.");
        out.push(
            Candidate {
                path: "removed packages".to_owned(),
                label,
                bytes,
                safety: Safety::Review,
                method: ReclaimMethod::Packages { kind: RemovableKind::ResidualConfig, names },
                cost: Some(cost),
                category: "residual_config".to_owned(),
                reclaimable: Reclaimable::Exact,
            },
        );
        assert(candidate_texts(out@) =~= seq![leftover_offer(residual@)]);
        Ok(out)
    }
}

/// Leftovers are one decision, however many packages they are of.
pub proof fn law_leftovers_are_one_decision(v: Seq<ResidualConfig>)
    ensures
        leftover_offers(v).len() <= 1,
        v.len() > 0 ==> leftover_offers(v).len() == 1,
{
}

/// A superseded kernel goes whole: its method names as many packages as the
/// set holds, each by its own name and in order, and the figure is the sum of
/// what those packages take. It is never taken along without being reviewed.
pub proof fn law_a_kernel_goes_whole(set: KernelSet, c: Candidate)
    requires
        candidate_text(c) == kernel_offer(set),
    ensures
        c.method matches ReclaimMethod::Packages { kind, names } && kind == RemovableKind::OldKernel
            && names@.len() == set.packages@.len() && forall|i: int|
            0 <= i < names@.len() ==> (#[trigger] names@[i])@ == set.packages@[i].name@,
        c.safety == Safety::Review,
        c.cost is Some,
        c.reclaimable is Exact,
        c.path@ == "kernel "@ + set.version.0@,
        c.label@ == "Linux "@ + set.version.0@ + " ("@ + decimal(set.packages@.len())
            + " packages)"@,
        recorded_total(set.packages@) <= u64::MAX ==> c.bytes == recorded_total(set.packages@),
        recorded_total(set.packages@) > u64::MAX ==> c.bytes == u64::MAX,
{
    law_a_candidate_is_what_its_view_says(c);
    if let ReclaimMethod::Packages { kind, names } = c.method {
        let n = package_names(set.packages@);
        assert(texts(names@) == n);
        assert(texts(names@).len() == names@.len());
        assert forall|i: int| 0 <= i < names@.len() implies (#[trigger] names@[i])@
            == set.packages@[i].name@ by {
            assert(texts(names@)[i] == n[i]);
        }
    }
}

/// What is offered of the kernels that are installed: whole groups of the
/// packages of one kernel, each named for removal, and no package of any other
/// kernel and no other package with them.
pub proof fn law_only_a_kernels_own_packages_are_named(
    packages: Seq<Package>,
    running: Option<Seq<char>>,
    v: Vec<Candidate>,
    i: int,
)
    requires
        kernels_offered(packages, running, Ok(v)),
        0 <= i < v@.len(),
    ensures
        exists|set: KernelSet| #[trigger]
            candidate_text(v@[i]) == kernel_offer(set) && (forall|k: int|
                0 <= k < set.packages@.len() ==> packages.contains(#[trigger] set.packages@[k])
                    && kernel_base(set.packages@[k]) == Some(base_of(set.version.0@))) && (forall|
                p: Package,
            |
                packages.contains(p) && #[trigger] kernel_base(p) == Some(
                    base_of(set.version.0@),
                ) ==> set.packages@.contains(p)),
{
    let (sets, bases, chosen) = choose|
        sets: Seq<KernelSet>,
        bases: Seq<Seq<char>>,
        chosen: Seq<KernelSet>,
    | #[trigger]
        grouped(packages, sets, bases) && #[trigger] offers_of(sets, running, chosen) && offers(
            Ok(v),
            kernel_offers(chosen),
        );
    law_what_is_offered_is_returned(v, kernel_offers(chosen));
    let set = chosen[i];
    assert(candidate_text(v@[i]) == kernel_offer(set));
    crate::pkg::dpkg::law_offered_kernels_are_among_the_groups(sets, running, chosen, i);
    let k = choose|k: int| 0 <= k < sets.len() && sets[k] == set;
    assert(bases[k] == bases[k]);
    crate::pkg::dpkg::law_a_group_holds_a_kernels_packages(packages, bases[k]);
    assert(set.packages@ == members(packages, bases[k]));
}

/// What removed packages left behind is one decision that names each of them,
/// by its own name and in order, for the sum of what they left.
pub proof fn law_every_leftover_is_named(v: Seq<ResidualConfig>, c: Candidate)
    requires
        v.len() > 0,
        leftover_offers(v).contains(candidate_text(c)),
    ensures
        c.method matches ReclaimMethod::Packages { kind, names } && kind
            == RemovableKind::ResidualConfig && names@.len() == v.len() && forall|i: int|
            0 <= i < names@.len() ==> (#[trigger] names@[i])@ == v[i].name@,
        c.safety == Safety::Review,
        c.cost is Some,
        c.reclaimable is Exact,
        leftover_total(v) <= u64::MAX ==> c.bytes == leftover_total(v),
        leftover_total(v) > u64::MAX ==> c.bytes == u64::MAX,
{
    law_a_candidate_is_what_its_view_says(c);
    assert(candidate_text(c) == leftover_offer(v));
    if let ReclaimMethod::Packages { kind, names } = c.method {
        let n = leftover_names(v);
        assert(texts(names@) == n);
        assert(texts(names@).len() == names@.len());
        assert forall|i: int| 0 <= i < names@.len() implies (#[trigger] names@[i])@
            == v[i].name@ by {
            assert(texts(names@)[i] == n[i]);
        }
    }
}

/// Each leftover adds its own bytes to the figure.
pub proof fn law_every_leftover_adds_its_bytes(v: Seq<ResidualConfig>, r: ResidualConfig)
    ensures
        leftover_total(v.push(r)) == leftover_total(v) + r.bytes,
        leftover_total(Seq::<ResidualConfig>::empty()) == 0,
{
    assert(v.push(r).drop_last() =~= v);
}

/// Whether a name is that of an installed package of a kernel which may go:
/// one whose numbers are not those of the running kernel.
pub open spec fn of_a_superseded_kernel(
    packages: Seq<Package>,
    running: Option<Seq<char>>,
    name: Seq<char>,
) -> bool {
    exists|k: int|
        0 <= k < packages.len() && (#[trigger] packages[k]).name@ == name && (kernel_base(
            packages[k],
        ) matches Some(b) && (running matches Some(r) ==> b != base_of(trimmed(r))))
}

/// What is offered of the old kernels names nothing but installed packages of
/// kernels, and none of the kernel that runs.
pub proof fn law_the_running_kernels_packages_are_never_named(
    c: OldKernelCategory,
    packages: Seq<Package>,
    r: Result<Vec<Candidate>>,
    v: Vec<Candidate>,
    i: int,
)
    requires
        call_ensures(<OldKernelCategory as Category>::candidates, (&c, false), r),
        r == Ok::<Vec<Candidate>, AppError>(v),
        c.listed() == Ok::<Seq<Package>, AppError>(packages),
        0 <= i < v@.len(),
    ensures
        v@[i].method matches ReclaimMethod::Packages { kind, names } && kind
            == RemovableKind::OldKernel && names@.len() > 0 && forall|k: int|
            0 <= k < names@.len() ==> of_a_superseded_kernel(
                packages,
                c.running(),
                (#[trigger] names@[k])@,
            ),
        v@[i].safety == Safety::Review,
{
    let running = running_version(c.running());
    assert(kernels_offered(packages, running, Ok(v)));
    let (sets, bases, chosen) = choose|
        sets: Seq<KernelSet>,
        bases: Seq<Seq<char>>,
        chosen: Seq<KernelSet>,
    | #[trigger]
        grouped(packages, sets, bases) && #[trigger] offers_of(sets, running, chosen) && offers(
            Ok(v),
            kernel_offers(chosen),
        );
    law_what_is_offered_is_returned(v, kernel_offers(chosen));
    let set = chosen[i];
    assert(candidate_text(v@[i]) == kernel_offer(set));
    law_a_kernel_goes_whole(set, v@[i]);
    crate::pkg::dpkg::law_offered_kernels_are_among_the_groups(sets, running, chosen, i);
    let j = choose|j: int| 0 <= j < sets.len() && sets[j] == set;
    assert(bases[j] == bases[j]);
    crate::pkg::dpkg::law_a_group_holds_a_kernels_packages(packages, bases[j]);
    if let Some(now) = running {
        crate::pkg::dpkg::law_the_running_kernel_is_never_offered(sets, now, chosen, i);
    }
    if let ReclaimMethod::Packages { kind, names } = v@[i].method {
        assert forall|k: int| 0 <= k < names@.len() implies of_a_superseded_kernel(
            packages,
            c.running(),
            (#[trigger] names@[k])@,
        ) by {
            let p = members(packages, bases[j])[k];
            assert(packages.contains(p));
            let at = choose|at: int| 0 <= at < packages.len() && packages[at] == p;
            assert(packages[at].name@ == names@[k]@);
        }
        crate::pkg::dpkg::law_every_group_has_a_package(packages, bases[j]);
    }
}

} // verus!
