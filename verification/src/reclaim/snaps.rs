//! Superseded snap revisions, and flatpak runtimes that nothing needs.
//!
//! What flatpak considers unused is its own decision, and its files are
//! shared with a repository that outlives them, so nothing is promised there.
//! An orphaned repository is reported and left to the user.
use vstd::prelude::*;
use vstd::string::*;
use crate::caps::{Capabilities, Capability};
use crate::double::capped;
use crate::error::{AppError, Result};
use crate::op::check_flag;
use crate::paths::joined;
use crate::pkg::flatpak::{measure_tree, ref_texts, repository_dir, tree_sums, unneeded, unused_runtimes, Ref, TreeFact, SYSTEM_ROOT};
use crate::pkg::snap::{may_go, removable, removable_of, Revision};
use crate::pkg::capped_add;
use crate::space::{Advisory, Category as SpaceCategory, ReclaimMethod, Reclaimable, Safety};
use crate::text::{decimal, opt_text, push_u64};
use super::registry::{candidate_text, law_a_candidate_is_what_its_view_says, law_what_is_offered_is_returned, candidate_texts, offers, promise_text, stopped, Candidate, CandidateText, Category, MethodText, PromiseText};

verus! {

broadcast use vstd::string::group_string_axioms;

/// What a list holds, or why there is none.
pub open spec fn outcome<T>(r: Result<Vec<T>>) -> core::result::Result<Seq<T>, AppError> {
    match r {
        Ok(v) => Ok(v@),
        Err(e) => Err(e),
    }
}

/// The offer to remove a revision. It is exact: the helper removes the other
/// name of the blob as well.
pub open spec fn revision_offer(r: Revision) -> CandidateText {
    CandidateText {
        path: "snap "@ + r.name@ + " revision "@ + r.revision@,
        label: r.name@ + " "@ + r.version@ + " (revision "@ + r.revision@ + ")"@,
        bytes: r.bytes,
        safety: Safety::Review,
        method: MethodText::SnapRevision(r.name@, r.revision@),
        cost: Some(
            "You will no longer be able to `snap revert "@ + r.name@ + "` to revision "@
                + r.revision@ + " if the current one turns out to have a problem."@,
        ),
        category: "snap_revisions"@,
        reclaimable: PromiseText::Exact,
    }
}

/// What is offered of some revisions that may be removed.
pub open spec fn revision_offers(v: Seq<Revision>) -> Seq<CandidateText> {
    v.map_values(|r: Revision| revision_offer(r))
}

fn offer_revision(r: &Revision) -> (c: Candidate)
    ensures
        candidate_text(c) == revision_offer(*r),
{
    let name = r.name.as_str();
    let revision = r.revision.as_str();
    let mut path = "snap ".to_owned();
    path.append(name);
    path.append(" revision ");
    path.append(revision);
    let mut label = name.to_owned();
    label.append(" ");
    label.append(r.version.as_str());
    label.append(" (revision ");
    label.append(revision);
    label.append(")");
    let mut cost = "You will no longer be able to `snap revert ".to_owned();
    cost.append(name);
    cost.append("` to revision ");
    cost.append(revision);
    cost.append(" if the current one turns out to have a problem.");
    Candidate {
        path,
        label,
        bytes: r.bytes,
        safety: Safety::Review,
        method: ReclaimMethod::SnapRevision {
            package: name.to_owned(),
            revision: revision.to_owned(),
        },
        cost: Some(cost),
        category: "snap_revisions".to_owned(),
        reclaimable: Reclaimable::Exact,
    }
}

/// What the category of snap revisions holds.
pub const SNAPS_MEANING: &'static str =
    "Superseded versions of installed snaps, which snapd keeps so you can roll back. Removing them means you cannot revert those apps to their previous version. The running revision of each snap is never touched.";

/// Superseded snap revisions, with what snapd lists.
#[derive(Debug)]
pub struct SnapRevisionCategory {
    present: bool,
    revisions: Result<Vec<Revision>>,
}

impl SnapRevisionCategory {
    /// Whether snapd is there.
    pub closed spec fn there(&self) -> bool {
        self.present
    }

    /// Every revision, or why they could not be listed.
    pub closed spec fn listed(&self) -> core::result::Result<Seq<Revision>, AppError> {
        outcome(self.revisions)
    }

    /// A category that has seen no snapd.
    pub fn new() -> (r: Self)
        ensures
            !r.there(),
            r.listed() == Ok::<Seq<Revision>, AppError>(Seq::empty()),
    {
        SnapRevisionCategory { present: false, revisions: Ok(Vec::new()) }
    }

    /// A category over every revision.
    pub fn at(caps: &Capabilities, revisions: Result<Vec<Revision>>) -> (r: Self)
        ensures
            r.there() == caps.found@.contains(Capability::Snap),
            r.listed() == outcome(revisions),
    {
        SnapRevisionCategory { present: caps.has(Capability::Snap), revisions }
    }
}

impl Default for SnapRevisionCategory {
    fn default() -> (r: Self)
        ensures
            !r.there(),
            r.listed() == Ok::<Seq<Revision>, AppError>(Seq::empty()),
    {
        SnapRevisionCategory::new()
    }
}

impl Category for SnapRevisionCategory {
    open spec fn ident(&self) -> Seq<char> {
        "snap_revisions"@
    }

    open spec fn title(&self) -> Seq<char> {
        "Old snap revisions"@
    }

    open spec fn meaning(&self) -> Seq<char> {
        SNAPS_MEANING@
    }

    open spec fn kind(&self) -> SpaceCategory {
        SpaceCategory::PackagePayload
    }

    open spec fn usable(&self) -> bool {
        self.there()
    }

    open spec fn proposes(&self, cancelled: bool, r: Result<Vec<Candidate>>) -> bool {
        if cancelled {
            stopped(r)
        } else {
            match self.listed() {
                Ok(all) => offers(r, revision_offers(removable_of(all, all))),
                Err(error) => r == Err::<Vec<Candidate>, AppError>(error),
            }
        }
    }

    open spec fn advises(&self, r: Seq<Advisory>) -> bool {
        r.len() == 0
    }

    fn id(&self) -> &'static str {
        "snap_revisions"
    }

    fn label(&self) -> &'static str {
        "Old snap revisions"
    }

    fn explains(&self) -> &'static str {
        SNAPS_MEANING
    }

    fn space_category(&self) -> SpaceCategory {
        SpaceCategory::PackagePayload
    }

    fn available(&self) -> bool {
        self.present
    }

    fn advisories(&self) -> Vec<Advisory> {
        Vec::new()
    }

    fn candidates(&self, cancelled: bool) -> Result<Vec<Candidate>> {
        if let Err(e) = check_flag(cancelled) {
            return Err(e);
        }
        let all = match &self.revisions {
            Ok(v) => v,
            Err(e) => {
                return Err(e.clone());
            },
        };
        let chosen = removable(all);
        let mut out: Vec<Candidate> = Vec::new();
        let mut i: usize = 0;
        while i < chosen.len()
            invariant
                i <= chosen@.len(),
                out@.len() == i,
                forall|k: int|
                    0 <= k < i ==> candidate_text(#[trigger] out@[k]) == revision_offer(chosen@[k]),
            decreases chosen@.len() - i,
        {
            out.push(offer_revision(&chosen[i]));
            i = i + 1;
        }
        assert(candidate_texts(out@) =~= revision_offers(chosen@));
        Ok(out)
    }
}

// ---------------------------------------------------------------------------
// Flatpak
// ---------------------------------------------------------------------------

/// What the trees of some runtimes come to: bytes, and files shared with the
/// repository. A runtime without a tree comes to nothing.
pub open spec fn trees_total(count: nat, trees: Seq<Vec<TreeFact>>) -> (nat, nat)
    decreases count,
{
    if count == 0 {
        (0, 0)
    } else {
        let (bytes, shared) = trees_total((count - 1) as nat, trees);
        if count <= trees.len() {
            let t = trees[count - 1]@;
            (bytes + capped(tree_sums(t, t).0) as nat, shared + tree_sums(t, t).1)
        } else {
            (bytes, shared)
        }
    }
}

/// The names of some runtimes with their branches, with commas between them.
pub open spec fn runtime_names(v: Seq<Ref>) -> Seq<char>
    decreases v.len(),
{
    if v.len() == 0 {
        Seq::empty()
    } else {
        let name = v.last().id@ + " "@ + v.last().branch@;
        if v.len() == 1 {
            name
        } else {
            runtime_names(v.drop_last()) + ", "@ + name
        }
    }
}

/// Why nothing is promised where files are shared.
pub const SHARED_REASON: &'static str =
    "flatpak decides for itself which runtimes are unused, and its files are hard-linked into its repository — so the space returns only when that repository is pruned.";

/// Why nothing is promised where none is.
pub const ESTIMATE_REASON: &'static str =
    "flatpak decides for itself which runtimes are genuinely unused, so it may keep more than this estimate assumes.";

/// The offer to remove some runtimes, all in one decision: they cannot be
/// removed one by one.
pub open spec fn runtimes_offer(unused: Seq<Ref>, trees: Seq<Vec<TreeFact>>) -> CandidateText {
    CandidateText {
        path: SYSTEM_ROOT@,
        label: decimal(unused.len()) + " unused "@ + if unused.len() == 1 {
            "runtime"@
        } else {
            "runtimes"@
        },
        bytes: capped(trees_total(unused.len(), trees).0),
        safety: Safety::Review,
        method: MethodText::FlatpakUnused,
        cost: Some(
            "Removes "@ + runtime_names(unused)
                + ". Installing an application that needs one again will re-download it."@,
        ),
        category: "flatpak_unused"@,
        reclaimable: PromiseText::AtMost(
            None,
            if trees_total(unused.len(), trees).1 > 0 {
                SHARED_REASON@
            } else {
                ESTIMATE_REASON@
            },
        ),
    }
}

/// What is offered of some refs: nothing where every runtime is needed.
pub open spec fn runtime_offers(refs: Seq<Ref>, trees: Seq<Vec<TreeFact>>) -> Seq<CandidateText> {
    let unused = unneeded(refs, ref_texts(refs));
    if unused.len() == 0 {
        Seq::empty()
    } else {
        seq![runtimes_offer(unused, trees)]
    }
}

/// Why a repository is left to the user.
pub const WHY_MANUAL: &'static str =
    "Pruning an ostree repository needs the `ostree` command, which is not installed. nix will not ship a privileged operation it has never been able to run.";

/// What the user can run.
pub const PRUNE_REMEDY: &'static str =
    "sudo ostree prune --repo=/var/lib/flatpak/repo --refs-only";

/// What is said of an orphaned repository.
pub const ORPHANED_REASON: &'static str =
    "Nothing is installed from this repository, so its objects are unreferenced.";

/// Whether `a` reports an orphaned repository of this size.
pub open spec fn orphan_report(a: Advisory, bytes: u64) -> bool {
    &&& opt_text(a.path) == Some(joined(SYSTEM_ROOT@, "repo"@))
    &&& a.label@ == "Orphaned flatpak repository objects"@
    &&& a.bytes == bytes
    &&& promise_text(a.reclaimable) == PromiseText::AtMost(Some(bytes), ORPHANED_REASON@)
    &&& a.why_manual@ == WHY_MANUAL@
    &&& a.remedy@ == PRUNE_REMEDY@
    &&& a.category@ == "flatpak_unused"@
}

/// What the category of flatpak runtimes holds.
pub const RUNTIMES_MEANING: &'static str =
    "Runtimes no installed flatpak still depends on. Downloaded again if you install something that needs one, typically a few hundred megabytes.";

/// Flatpak runtimes that nothing needs, with what was seen of them.
#[derive(Debug)]
pub struct FlatpakUnusedCategory {
    present: bool,
    refs: Result<Vec<Ref>>,
    trees: Vec<Vec<TreeFact>>,
    repository: Option<Vec<TreeFact>>,
}

/// Whether nothing is known to be installed.
pub open spec fn nothing_installed(refs: core::result::Result<Seq<Ref>, AppError>) -> bool {
    match refs {
        Ok(v) => v.len() == 0,
        Err(_) => true,
    }
}

impl FlatpakUnusedCategory {
    /// Whether flatpak is there.
    pub closed spec fn there(&self) -> bool {
        self.present
    }

    /// What is installed, or why that could not be listed.
    pub closed spec fn listed(&self) -> core::result::Result<Seq<Ref>, AppError> {
        outcome(self.refs)
    }

    /// The tree of each runtime that nothing needs, in order.
    pub closed spec fn deployed(&self) -> Seq<Vec<TreeFact>> {
        self.trees@
    }

    /// What is in the repository, where there is one.
    pub closed spec fn objects(&self) -> Option<Seq<TreeFact>> {
        match self.repository {
            Some(v) => Some(v@),
            None => None,
        }
    }

    /// A category that has seen no flatpak.
    pub fn new() -> (r: Self)
        ensures
            !r.there(),
            r.listed() == Ok::<Seq<Ref>, AppError>(Seq::empty()),
            r.deployed() == Seq::<Vec<TreeFact>>::empty(),
            r.objects() is None,
    {
        FlatpakUnusedCategory {
            present: false,
            refs: Ok(Vec::new()),
            trees: Vec::new(),
            repository: None,
        }
    }

    /// A category over what is installed, the trees of the runtimes that
    /// nothing needs, and the repository.
    pub fn at(
        caps: &Capabilities,
        refs: Result<Vec<Ref>>,
        trees: Vec<Vec<TreeFact>>,
        repository: Option<Vec<TreeFact>>,
    ) -> (r: Self)
        ensures
            r.there() == caps.found@.contains(Capability::Flatpak),
            r.listed() == outcome(refs),
            r.deployed() == trees@,
            r.objects() == match repository {
                Some(v) => Some(v@),
                None => None,
            },
    {
        FlatpakUnusedCategory { present: caps.has(Capability::Flatpak), refs, trees, repository }
    }
}

impl Default for FlatpakUnusedCategory {
    fn default() -> (r: Self)
        ensures
            !r.there(),
            r.listed() == Ok::<Seq<Ref>, AppError>(Seq::empty()),
            r.deployed() == Seq::<Vec<TreeFact>>::empty(),
            r.objects() is None,
    {
        FlatpakUnusedCategory::new()
    }
}

impl Category for FlatpakUnusedCategory {
    open spec fn ident(&self) -> Seq<char> {
        "flatpak_unused"@
    }

    open spec fn title(&self) -> Seq<char> {
        "Unused flatpak runtimes"@
    }

    open spec fn meaning(&self) -> Seq<char> {
        RUNTIMES_MEANING@
    }

    open spec fn kind(&self) -> SpaceCategory {
        SpaceCategory::PackagePayload
    }

    open spec fn usable(&self) -> bool {
        self.there()
    }

    open spec fn proposes(&self, cancelled: bool, r: Result<Vec<Candidate>>) -> bool {
        if cancelled {
            stopped(r)
        } else {
            match self.listed() {
                Ok(refs) => offers(r, runtime_offers(refs, self.deployed())),
                Err(error) => r == Err::<Vec<Candidate>, AppError>(error),
            }
        }
    }

    /// A repository from which nothing is installed is reported. With
    /// anything installed, how much of it is orphaned cannot be told.
    open spec fn advises(&self, r: Seq<Advisory>) -> bool {
        match self.objects() {
            Some(t) if nothing_installed(self.listed()) && capped(tree_sums(t, t).0) > 0 => r.len()
                == 1 && orphan_report(r[0], capped(tree_sums(t, t).0)),
            _ => r.len() == 0,
        }
    }

    fn id(&self) -> &'static str {
        "flatpak_unused"
    }

    fn label(&self) -> &'static str {
        "Unused flatpak runtimes"
    }

    fn explains(&self) -> &'static str {
        RUNTIMES_MEANING
    }

    fn space_category(&self) -> SpaceCategory {
        SpaceCategory::PackagePayload
    }

    fn available(&self) -> bool {
        self.present
    }

    fn advisories(&self) -> Vec<Advisory> {
        let mut out: Vec<Advisory> = Vec::new();
        let orphaned = match &self.refs {
            Ok(v) => v.len() == 0,
            Err(_) => true,
        };
        if let Some(facts) = &self.repository {
            if orphaned {
                let size = measure_tree(facts);
                if size.bytes > 0 {
                    out.push(
                        Advisory {
                            path: Some(repository_dir(SYSTEM_ROOT)),
                            label: "Orphaned flatpak repository objects".to_owned(),
                            bytes: size.bytes,
                            reclaimable: Reclaimable::AtMost {
                                exclusive: Some(size.bytes),
                                reason: ORPHANED_REASON.to_owned(),
                            },
                            why_manual: WHY_MANUAL.to_owned(),
                            remedy: PRUNE_REMEDY.to_owned(),
                            category: "flatpak_unused".to_owned(),
                        },
                    );
                }
            }
        }
        out
    }

    fn candidates(&self, cancelled: bool) -> Result<Vec<Candidate>> {
        if let Err(e) = check_flag(cancelled) {
            return Err(e);
        }
        let refs = match &self.refs {
            Ok(v) => v,
            Err(e) => {
                return Err(e.clone());
            },
        };
        let unused = unused_runtimes(refs);
        let mut out: Vec<Candidate> = Vec::new();
        if unused.len() == 0 {
            assert(candidate_texts(out@) =~= Seq::<CandidateText>::empty());
            return Ok(out);
        }
        let mut bytes: u64 = 0;
        let mut shared = false;
        let mut names = String::new();
        let mut i: usize = 0;
        assert(unused@.take(0) =~= Seq::<Ref>::empty());
        while i < unused.len()
            invariant
                i <= unused@.len(),
                bytes == capped(trees_total(i as nat, self.trees@).0),
                shared == (trees_total(i as nat, self.trees@).1 > 0),
                names@ == runtime_names(unused@.take(i as int)),
            decreases unused@.len() - i,
        {
            assert(unused@.take(i + 1).drop_last() =~= unused@.take(i as int));
            if i < self.trees.len() {
                let size = measure_tree(&self.trees[i]);
                bytes = capped_add(bytes, size.bytes);
                shared = shared || size.shared_files > 0;
            }
            if i > 0 {
                names.append(", ");
            }
            names.append(unused[i].id.as_str());
            names.append(" ");
            names.append(unused[i].branch.as_str());
            assert(names@ =~= runtime_names(unused@.take(i + 1)));
            i = i + 1;
        }
        assert(unused@.take(i as int) =~= unused@);
        let mut label = String::new();
        push_u64(&mut label, unused.len() as u64);
        label.append(" unused ");
        label.append(
            if unused.len() == 1 {
                "runtime"
            } else {
                "runtimes"
            },
        );
        let mut cost = "Removes ".to_owned();
        cost.append(names.as_str());
        cost.append(". Installing an application that needs one again will re-download it.");
        let reason = if shared {
            SHARED_REASON.to_owned()
        } else {
            ESTIMATE_REASON.to_owned()
        };
        assert(label@ =~= runtimes_offer(unused@, self.trees@).label);
        out.push(
            Candidate {
                path: SYSTEM_ROOT.to_owned(),
                label,
                bytes,
                safety: Safety::Review,
                method: ReclaimMethod::FlatpakUnused,
                cost: Some(cost),
                category: "flatpak_unused".to_owned(),
                reclaimable: Reclaimable::AtMost { exclusive: None, reason },
            },
        );
        assert(candidate_texts(out@) =~= seq![runtimes_offer(unused@, self.trees@)]);
        Ok(out)
    }
}

/// No active revision is ever offered, nor the only one of its snap, and what
/// is offered is promised in full.
pub proof fn law_offered_revisions_are_superseded(all: Seq<Revision>, i: int)
    requires
        0 <= i < removable_of(all, all).len(),
    ensures
        may_go(all, removable_of(all, all)[i]),
        revision_offers(removable_of(all, all))[i].bytes > 0,
        revision_offers(removable_of(all, all))[i].reclaimable is Exact,
{
    crate::pkg::snap::law_active_and_sole_revisions_stay(all, all, i);
}

/// Nothing is promised of the runtimes that are offered.
pub proof fn law_runtimes_promise_nothing(refs: Seq<Ref>, trees: Seq<Vec<TreeFact>>, i: int)
    requires
        0 <= i < runtime_offers(refs, trees).len(),
    ensures
        runtime_offers(refs, trees)[i].reclaimable matches PromiseText::AtMost(exclusive, _)
            && exclusive is None,
{
}

/// A revision is removed by its own name and number, for what its blob takes,
/// and never goes unreviewed.
pub proof fn law_a_revision_is_removed_by_its_own_number(r: Revision, c: Candidate)
    requires
        candidate_text(c) == revision_offer(r),
    ensures
        c.method matches ReclaimMethod::SnapRevision { package, revision } && package@ == r.name@
            && revision@ == r.revision@,
        c.bytes == r.bytes,
        c.safety == Safety::Review,
        c.cost is Some,
{
    law_a_candidate_is_what_its_view_says(c);
}

/// Runtimes that nothing needs are one decision, for what their trees take
/// together, and left to flatpak. Where every runtime is needed there is no
/// offer.
pub proof fn law_runtimes_are_one_decision(refs: Seq<Ref>, trees: Seq<Vec<TreeFact>>)
    ensures
        ({
            let unused = unneeded(refs, ref_texts(refs));
            let offers = runtime_offers(refs, trees);
            if unused.len() == 0 {
                offers.len() == 0
            } else {
                &&& offers.len() == 1
                &&& offers[0].method is FlatpakUnused
                &&& offers[0].safety == Safety::Review
                &&& offers[0].cost is Some
                &&& trees_total(unused.len(), trees).0 <= u64::MAX ==> offers[0].bytes
                    == trees_total(unused.len(), trees).0
            }
        }),
{
}

/// Each tree adds what it takes, and the files that it shares.
pub proof fn law_every_tree_counts(count: nat, trees: Seq<Vec<TreeFact>>)
    requires
        count < trees.len(),
        tree_sums(trees[count as int]@, trees[count as int]@).0 <= u64::MAX,
    ensures
        trees_total((count + 1) as nat, trees).0 == trees_total(count, trees).0 + tree_sums(
            trees[count as int]@,
            trees[count as int]@,
        ).0,
        trees_total((count + 1) as nat, trees).1 == trees_total(count, trees).1 + tree_sums(
            trees[count as int]@,
            trees[count as int]@,
        ).1,
        trees_total(0, trees) == (0nat, 0nat),
{
}

/// A repository is reported as orphaned exactly where nothing is installed
/// from it and it takes anything, for what it takes.
pub proof fn law_only_an_orphaned_repository_is_reported(
    c: FlatpakUnusedCategory,
    r: Seq<Advisory>,
)
    requires
        c.advises(r),
    ensures
        r.len() <= 1,
        r.len() == 1 ==> {
            &&& c.objects() matches Some(t)
            &&& tree_sums(t, t).0 > 0
            &&& tree_sums(t, t).0 <= u64::MAX ==> r[0].bytes == tree_sums(t, t).0
            &&& c.listed() matches Ok(v) ==> v.len() == 0
        },
        c.objects() matches Some(t) ==> tree_sums(t, t).0 > 0 ==> (c.listed() matches Ok(v)
            && v.len() == 0) ==> r.len() == 1,
{
}

/// What is offered of the snaps is revisions that snapd has superseded, each
/// by its own name and number and for what its blob takes, and never the only
/// one of a snap.
pub proof fn law_only_superseded_revisions_are_named(
    c: SnapRevisionCategory,
    all: Seq<Revision>,
    r: Result<Vec<Candidate>>,
    v: Vec<Candidate>,
    i: int,
)
    requires
        call_ensures(<SnapRevisionCategory as Category>::candidates, (&c, false), r),
        r == Ok::<Vec<Candidate>, AppError>(v),
        c.listed() == Ok::<Seq<Revision>, AppError>(all),
        0 <= i < v@.len(),
    ensures
        v@[i].method matches ReclaimMethod::SnapRevision { package, revision } && exists|k: int|
            0 <= k < removable_of(all, all).len() && (#[trigger] removable_of(all, all)[k]).name@
                == package@ && removable_of(all, all)[k].revision@ == revision@ && removable_of(
                all,
                all,
            )[k].disabled && removable_of(all, all)[k].bytes == v@[i].bytes,
        v@[i].bytes > 0,
{
    let gone = removable_of(all, all);
    law_what_is_offered_is_returned(v, revision_offers(gone));
    assert(candidate_text(v@[i]) == revision_offer(gone[i]));
    law_a_revision_is_removed_by_its_own_number(gone[i], v@[i]);
    crate::pkg::snap::law_active_and_sole_revisions_stay(all, all, i);
    assert(gone[i].name == gone[i].name);
}

} // verus!
