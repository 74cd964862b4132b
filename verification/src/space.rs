//! The space model: what takes space, how safe it is to reclaim, how it would
//! be reclaimed, and how much would come back.
use vstd::prelude::*;
use vstd::string::*;
use crate::error::copy_option;
use crate::text::{copy_strings, decimal, push_u64, texts};

verus! {

broadcast use vstd::string::group_string_axioms;

/// A package manager.
#[derive(Debug, Clone, Copy, PartialEq, Eq, Structural, Hash)]
pub enum Manager {
    Apt,
    Dnf,
    Pacman,
    Zypper,
}

/// The name of a package manager.
pub open spec fn manager_name(m: Manager) -> Seq<char> {
    match m {
        Manager::Apt => "apt"@,
        Manager::Dnf => "dnf"@,
        Manager::Pacman => "pacman"@,
        Manager::Zypper => "zypper"@,
    }
}

impl Manager {
    /// The manager's own name.
    pub fn name(&self) -> (r: &'static str)
        ensures
            r@ == manager_name(*self),
    {
        match self {
            Manager::Apt => "apt",
            Manager::Dnf => "dnf",
            Manager::Pacman => "pacman",
            Manager::Zypper => "zypper",
        }
    }
}

/// How safe it is to reclaim something.
#[derive(Debug, Clone, Copy, PartialEq, Eq, Structural)]
pub enum Safety {
    /// It comes back by itself, at no cost worth stating.
    Safe,
    /// It has a cost, which is stated.
    Review,
    /// Data may be lost. Always a decision of its own.
    Risky,
    /// Not reclaimable at all.
    Never,
}

impl Safety {
    /// Whether a "select all" may take it along.
    pub fn bulk_selectable(&self) -> (r: bool)
        ensures
            r == (*self == Safety::Safe || *self == Safety::Review),
    {
        matches!(self, Safety::Safe | Safety::Review)
    }

    /// Whether it may be selected before the user has said anything.
    pub fn pre_checkable(&self) -> (r: bool)
        ensures
            r == (*self == Safety::Safe),
    {
        matches!(self, Safety::Safe)
    }
}

/// What kind of space an entry is.
#[derive(Debug, Clone, Copy, PartialEq, Eq, Structural)]
pub enum Category {
    Unknown,
    AppCache,
    Trash,
    PackageCache,
    Journal,
    Log,
    ContainerImage,
    PackagePayload,
    UserFile,
    BuildArtifact,
    OrphanedConfig,
}

/// Files of the system that may be removed one by one.
#[derive(Debug, Clone, Copy, PartialEq, Eq, Structural)]
pub enum ReclaimKind {
    RotatedLog,
}

/// Packages that may be removed as a set.
#[derive(Debug, Clone, Copy, PartialEq, Eq, Structural)]
pub enum RemovableKind {
    OldKernel,
    ResidualConfig,
}

/// How far the journal is cut back.
#[derive(Debug, Clone, Copy, PartialEq, Eq, Structural)]
pub enum VacuumLimit {
    Size { mebibytes: u64 },
    Age { days: u64 },
}

/// What a container runtime is asked to prune.
#[derive(Debug, Clone, Copy, PartialEq, Eq, Structural)]
pub enum PruneScope {
    BuildCache,
    DanglingImages,
    UnusedImages,
    StoppedContainers,
}

/// What a scope is called.
pub open spec fn scope_name(s: PruneScope) -> Seq<char> {
    match s {
        PruneScope::BuildCache => "build cache"@,
        PruneScope::DanglingImages => "dangling images"@,
        PruneScope::UnusedImages => "unused images"@,
        PruneScope::StoppedContainers => "stopped containers"@,
    }
}

impl PruneScope {
    /// What the scope is called.
    pub fn name(&self) -> (r: &'static str)
        ensures
            r@ == scope_name(*self),
    {
        match self {
            PruneScope::BuildCache => "build cache",
            PruneScope::DanglingImages => "dangling images",
            PruneScope::UnusedImages => "unused images",
            PruneScope::StoppedContainers => "stopped containers",
        }
    }
}

/// How an entry would be reclaimed.
#[allow(inconsistent_fields)]
#[derive(Debug, PartialEq, Eq)]
pub enum ReclaimMethod {
    /// Moved to the trash, from where it can be restored.
    MoveToTrash { path: String },
    /// The trash of one volume, emptied.
    TrashEmpty { volume: String },
    /// A file of the system, removed by the privileged helper.
    SystemFile { kind: ReclaimKind, path: String },
    /// Packages, removed by the package manager.
    Packages { kind: RemovableKind, names: Vec<String> },
    /// The package manager's own cache, cleaned by it.
    PackageManager { manager: Manager },
    /// The journal, cut back by its own tool.
    JournalVacuum { limit: VacuumLimit },
    /// One superseded revision of a snap.
    SnapRevision { package: String, revision: String },
    /// What flatpak says nothing needs.
    FlatpakUnused,
    /// Something the container runtime prunes.
    ContainerPrune { scope: PruneScope },
    /// One container volume.
    ContainerVolume { name: String },
    /// A path, deleted outright.
    Unlink { path: String },
}

/// Whether the path of an entry is what its method acts on.
pub open spec fn on_path(m: ReclaimMethod) -> bool {
    m is MoveToTrash || m is Unlink || m is SystemFile || m is TrashEmpty
}

/// Whether two methods are the same: the same variant with the same texts.
pub open spec fn same_method(a: ReclaimMethod, b: ReclaimMethod) -> bool {
    match (a, b) {
        (
            ReclaimMethod::Packages { kind: k1, names: n1 },
            ReclaimMethod::Packages { kind: k2, names: n2 },
        ) => k1 == k2 && texts(n1@) == texts(n2@),
        _ => a == b,
    }
}

impl ReclaimMethod {
    /// Whether the entry's path is what the method acts on. A logical entry,
    /// such as a kernel, has a path that only describes it.
    pub fn acts_on_path(&self) -> (r: bool)
        ensures
            r == on_path(*self),
    {
        matches!(
            self,
            ReclaimMethod::MoveToTrash { .. } | ReclaimMethod::Unlink { .. }
                | ReclaimMethod::SystemFile { .. } | ReclaimMethod::TrashEmpty { .. }
        )
    }

    /// Whether nothing can bring the entry back afterwards.
    pub fn is_irreversible(&self) -> (r: bool)
        ensures
            r == !(self is MoveToTrash),
    {
        !matches!(self, ReclaimMethod::MoveToTrash { .. })
    }
}

impl Clone for ReclaimMethod {
    fn clone(&self) -> (r: Self)
        ensures
            same_method(r, *self),
    {
        match self {
            ReclaimMethod::MoveToTrash { path } => ReclaimMethod::MoveToTrash {
                path: path.clone(),
            },
            ReclaimMethod::TrashEmpty { volume } => ReclaimMethod::TrashEmpty {
                volume: volume.clone(),
            },
            ReclaimMethod::SystemFile { kind, path } => ReclaimMethod::SystemFile {
                kind: *kind,
                path: path.clone(),
            },
            ReclaimMethod::Packages { kind, names } => ReclaimMethod::Packages {
                kind: *kind,
                names: copy_strings(names),
            },
            ReclaimMethod::PackageManager { manager } => ReclaimMethod::PackageManager {
                manager: *manager,
            },
            ReclaimMethod::JournalVacuum { limit } => ReclaimMethod::JournalVacuum {
                limit: *limit,
            },
            ReclaimMethod::SnapRevision { package, revision } => ReclaimMethod::SnapRevision {
                package: package.clone(),
                revision: revision.clone(),
            },
            ReclaimMethod::FlatpakUnused => ReclaimMethod::FlatpakUnused,
            ReclaimMethod::ContainerPrune { scope } => ReclaimMethod::ContainerPrune {
                scope: *scope,
            },
            ReclaimMethod::ContainerVolume { name } => ReclaimMethod::ContainerVolume {
                name: name.clone(),
            },
            ReclaimMethod::Unlink { path } => ReclaimMethod::Unlink { path: path.clone() },
        }
    }
}

/// How much of a stated size will come back.
#[derive(Debug, PartialEq, Eq)]
pub enum Reclaimable {
    /// All of it.
    Exact,
    /// At most all of it: some may be shared with something that stays.
    AtMost {
        /// The part that is known to be shared with nothing.
        exclusive: Option<u64>,
        reason: String,
    },
}

/// The bytes that may be promised of a stated size.
pub open spec fn promise(r: Reclaimable, bytes: u64) -> u64 {
    match r {
        Reclaimable::Exact => bytes,
        Reclaimable::AtMost { exclusive: Some(x), .. } => if x < bytes {
            x
        } else {
            bytes
        },
        Reclaimable::AtMost { exclusive: None, .. } => 0,
    }
}

impl Reclaimable {
    /// Whether the stated size can be taken at face value.
    pub fn is_exact(&self) -> (r: bool)
        ensures
            r == (self is Exact),
    {
        matches!(self, Reclaimable::Exact)
    }

    /// The part of `bytes` that may be promised: what is proven exclusive,
    /// and never more than the stated size.
    pub fn promisable(&self, bytes: u64) -> (r: u64)
        ensures
            r == promise(*self, bytes),
            r <= bytes,
    {
        match self {
            Reclaimable::Exact => bytes,
            Reclaimable::AtMost { exclusive: Some(x), .. } => if *x < bytes {
                *x
            } else {
                bytes
            },
            Reclaimable::AtMost { exclusive: None, .. } => 0,
        }
    }

    /// What has to be said beside the size, if anything.
    pub fn caveat(&self) -> (r: Option<&str>)
        ensures
            match *self {
                Reclaimable::Exact => r is None,
                Reclaimable::AtMost { reason, .. } => r matches Some(t) && t@ == reason@,
            },
    {
        match self {
            Reclaimable::Exact => None,
            Reclaimable::AtMost { reason, .. } => Some(reason.as_str()),
        }
    }
}

impl Clone for Reclaimable {
    fn clone(&self) -> (r: Self)
        ensures
            r == *self,
    {
        match self {
            Reclaimable::Exact => Reclaimable::Exact,
            Reclaimable::AtMost { exclusive, reason } => Reclaimable::AtMost {
                exclusive: *exclusive,
                reason: reason.clone(),
            },
        }
    }
}

/// Space that can be accounted for but that this program will not act on.
#[derive(Debug, PartialEq, Eq)]
pub struct Advisory {
    pub path: Option<String>,
    pub label: String,
    pub bytes: u64,
    pub reclaimable: Reclaimable,
    /// Why it is left to the user.
    pub why_manual: String,
    /// What the user can run.
    pub remedy: String,
    pub category: String,
}

impl Clone for Advisory {
    fn clone(&self) -> (r: Self)
        ensures
            r == *self,
    {
        Advisory {
            path: copy_option(&self.path),
            label: self.label.clone(),
            bytes: self.bytes,
            reclaimable: self.reclaimable.clone(),
            why_manual: self.why_manual.clone(),
            remedy: self.remedy.clone(),
            category: self.category.clone(),
        }
    }
}

// ---------------------------------------------------------------------------
// Sizes for people
// ---------------------------------------------------------------------------

/// The name of a binary unit, by its power of 1024.
pub open spec fn unit_name(power: nat) -> Seq<char> {
    if power == 0 {
        "B"@
    } else if power == 1 {
        "KiB"@
    } else if power == 2 {
        "MiB"@
    } else if power == 3 {
        "GiB"@
    } else {
        "TiB"@
    }
}

/// A size in tenths of a unit, to the nearest tenth, halves upwards.
pub open spec fn tenths(bytes: nat, unit: nat) -> nat {
    (bytes * 10 + unit / 2) / unit
}

/// A size in the unit of the given power of 1024: whole below one kibibyte,
/// else with one decimal.
pub open spec fn size_in(bytes: nat, power: nat, unit: nat) -> Seq<char> {
    if power == 0 {
        decimal(bytes) + " "@ + unit_name(0)
    } else {
        decimal(tenths(bytes, unit) / 10) + "."@ + decimal(tenths(bytes, unit) % 10) + " "@
            + unit_name(power)
    }
}

/// A size as a person reads it: in the largest unit that it reaches.
pub open spec fn size_text(bytes: nat) -> Seq<char> {
    if bytes < 1024 {
        size_in(bytes, 0, 1)
    } else if bytes < 1048576 {
        size_in(bytes, 1, 1024)
    } else if bytes < 1073741824 {
        size_in(bytes, 2, 1048576)
    } else if bytes < 1099511627776 {
        size_in(bytes, 3, 1073741824)
    } else {
        size_in(bytes, 4, 1099511627776)
    }
}

/// A size as a person reads it, in binary units.
pub fn format_bytes(bytes: u64) -> (r: String)
    ensures
        r@ == size_text(bytes as nat),
{
    let mut out = String::new();
    if bytes < 1024 {
        push_u64(&mut out, bytes);
        out.append(" ");
        out.append("B");
        assert(out@ =~= size_text(bytes as nat));
        return out;
    }
    let (unit, name): (u64, &str) = if bytes < 1048576 {
        (1024, "KiB")
    } else if bytes < 1073741824 {
        (1048576, "MiB")
    } else if bytes < 1099511627776 {
        (1073741824, "GiB")
    } else {
        (1099511627776, "TiB")
    };
    let t: u128 = (bytes as u128 * 10 + (unit / 2) as u128) / unit as u128;
    assert(t == tenths(bytes as nat, unit as nat));
    assert(t <= u64::MAX) by (nonlinear_arith)
        requires
            t == (bytes * 10 + unit / 2) / (unit as int),
            unit >= 1024,
            bytes <= u64::MAX,
    ;
    let shown: u64 = t as u64;
    push_u64(&mut out, shown / 10);
    out.append(".");
    push_u64(&mut out, shown % 10);
    out.append(" ");
    out.append(name);
    assert(out@ =~= size_text(bytes as nat));
    out
}

/// A promise never exceeds the stated size.
pub proof fn law_promise_is_at_most_the_size(r: Reclaimable, bytes: u64)
    ensures
        promise(r, bytes) <= bytes,
{
}

/// What may be promised of a size: all of it where that is exact, what is
/// known to be exclusive where only that is known, and nothing where nothing
/// is.
pub proof fn law_only_what_is_known_is_promised(r: Reclaimable, bytes: u64)
    ensures
        r is Exact ==> promise(r, bytes) == bytes,
        r matches Reclaimable::AtMost { exclusive: None, .. } ==> promise(r, bytes) == 0,
        r matches Reclaimable::AtMost { exclusive: Some(x), .. } ==> (x <= bytes ==> promise(
            r,
            bytes,
        ) == x) && (x > bytes ==> promise(r, bytes) == bytes),
{
}

/// What is reclaimed at a path is a file, a directory or a trash; packages,
/// caches of managers, the journal, revisions, runtimes and container storage
/// are reclaimed by name.
pub proof fn law_what_is_reclaimed_at_a_path(m: ReclaimMethod)
    ensures
        match m {
            ReclaimMethod::MoveToTrash { .. } => on_path(m),
            ReclaimMethod::TrashEmpty { .. } => on_path(m),
            ReclaimMethod::SystemFile { .. } => on_path(m),
            ReclaimMethod::Unlink { .. } => on_path(m),
            _ => !on_path(m),
        },
{
}

/// A copy of a method has all of its parameters.
pub proof fn law_the_same_method_has_the_same_parameters(a: ReclaimMethod, b: ReclaimMethod)
    requires
        same_method(a, b),
    ensures
        match (a, b) {
            (
                ReclaimMethod::Packages { kind, names },
                ReclaimMethod::Packages { kind: k, names: n },
            ) => k == kind && n@.len() == names@.len() && forall|i: int|
                0 <= i < names@.len() ==> (#[trigger] n@[i])@ == names@[i]@,
            _ => a == b,
        },
{
    if let ReclaimMethod::Packages { kind, names } = a {
        if let ReclaimMethod::Packages { kind: k, names: n } = b {
            assert(texts(names@).len() == names@.len() && texts(n@).len() == n@.len());
            assert forall|i: int| 0 <= i < names@.len() implies (#[trigger] n@[i])@
                == names@[i]@ by {
                assert(texts(n@)[i] == texts(names@)[i]);
            }
        }
    }
}

/// Whether a text writes a size in tenths of a unit, rounded to the nearest.
pub open spec fn writes_tenths(text: Seq<char>, bytes: nat, unit: nat, name: Seq<char>) -> bool {
    exists|whole: nat, tenth: nat|
        tenth < 10 && #[trigger] (decimal(whole) + "."@ + decimal(tenth)) + name == text && 20
            * bytes + unit >= 2 * unit * (10 * whole + tenth) && 20 * bytes + unit < 2 * unit * (10
            * whole + tenth + 1)
}

/// A size is written in the largest of bytes, KiB, MiB, GiB and TiB that it
/// reaches, each a thousand and twenty-four of the one before: bytes as they
/// are, and everything else to the nearest tenth.
pub proof fn law_a_size_is_written_in_its_unit(bytes: nat)
    ensures
        bytes < 1024 ==> size_text(bytes) == decimal(bytes) + " B"@,
        1024 <= bytes < 1024 * 1024 ==> writes_tenths(size_text(bytes), bytes, 1024, " KiB"@),
        1024 * 1024 <= bytes < 1024 * 1024 * 1024 ==> writes_tenths(
            size_text(bytes),
            bytes,
            1024 * 1024,
            " MiB"@,
        ),
        1024 * 1024 * 1024 <= bytes < 1024 * 1024 * 1024 * 1024 ==> writes_tenths(
            size_text(bytes),
            bytes,
            1024 * 1024 * 1024,
            " GiB"@,
        ),
        1024 * 1024 * 1024 * 1024 <= bytes ==> writes_tenths(
            size_text(bytes),
            bytes,
            1024 * 1024 * 1024 * 1024,
            " TiB"@,
        ),
{
    reveal_strlit(" ");
    reveal_strlit("B");
    reveal_strlit("KiB");
    reveal_strlit("MiB");
    reveal_strlit("GiB");
    reveal_strlit("TiB");
    reveal_strlit(" B");
    reveal_strlit(" KiB");
    reveal_strlit(" MiB");
    reveal_strlit(" GiB");
    reveal_strlit(" TiB");
    assert(" "@ + "B"@ =~= " B"@);
    assert(" "@ + "KiB"@ =~= " KiB"@);
    assert(" "@ + "MiB"@ =~= " MiB"@);
    assert(" "@ + "GiB"@ =~= " GiB"@);
    assert(" "@ + "TiB"@ =~= " TiB"@);
    if bytes < 1024 {
        assert(size_text(bytes) =~= decimal(bytes) + " B"@);
    } else if bytes < 1048576 {
        lemma_tenths(bytes, 1, 1024, " KiB"@);
    } else if bytes < 1073741824 {
        lemma_tenths(bytes, 2, 1048576, " MiB"@);
    } else if bytes < 1099511627776 {
        lemma_tenths(bytes, 3, 1073741824, " GiB"@);
    } else {
        lemma_tenths(bytes, 4, 1099511627776, " TiB"@);
    }
}

proof fn lemma_tenths(bytes: nat, power: nat, unit: nat, name: Seq<char>)
    requires
        power > 0,
        unit == 1024 || unit == 1048576 || unit == 1073741824 || unit == 1099511627776,
        " "@ + unit_name(power) == name,
    ensures
        writes_tenths(size_in(bytes, power, unit), bytes, unit, name),
{
    let t = tenths(bytes, unit);
    let whole = t / 10;
    let tenth = t % 10;
    let front = decimal(whole) + "."@ + decimal(tenth);
    assert(front + name =~= size_in(bytes, power, unit));
    assert(t == 10 * whole + tenth);
    let x = (bytes * 10 + unit / 2) as int;
    let u = unit as int;
    vstd::arithmetic::div_mod::lemma_fundamental_div_mod(x, u);
    vstd::arithmetic::div_mod::lemma_mod_bound(x, u);
    assert(x / u == t);
    assert(2 * x == 20 * bytes + unit);
    assert(2 * u * t <= 2 * x && 2 * x < 2 * u * (t + 1)) by (nonlinear_arith)
        requires
            x == u * t + x % u,
            0 <= x % u,
            x % u < u,
    ;
}

/// Nothing risky is ever taken along, and only what is safe is checked before
/// the user has looked.
pub proof fn law_only_safe_things_are_taken_unseen(s: Safety, bulk: bool, checked: bool)
    requires
        call_ensures(Safety::bulk_selectable, (&s,), bulk),
        call_ensures(Safety::pre_checkable, (&s,), checked),
    ensures
        bulk == (s == Safety::Safe || s == Safety::Review),
        checked ==> s == Safety::Safe && bulk,
        s == Safety::Safe ==> checked,
{
}

/// What is promised of a size, and what is said beside it: all of it and
/// nothing where it is exact, and otherwise no more than is known to be
/// exclusive, with the reason.
pub proof fn law_a_promise_comes_with_its_caveat(
    r: Reclaimable,
    bytes: u64,
    promised: u64,
    exact: bool,
    caveat: Option<&str>,
)
    requires
        call_ensures(Reclaimable::promisable, (&r, bytes), promised),
        call_ensures(Reclaimable::is_exact, (&r,), exact),
        call_ensures(Reclaimable::caveat, (&r,), caveat),
    ensures
        match r {
            Reclaimable::Exact => exact && caveat is None && promised == bytes,
            Reclaimable::AtMost { exclusive, reason } => {
                &&& !exact
                &&& caveat matches Some(t) && t@ == reason@
                &&& exclusive is None ==> promised == 0
                &&& exclusive matches Some(x) ==> promised == (if x < bytes {
                    x
                } else {
                    bytes
                })
            },
        },
{
}

/// Only what goes to the trash can be brought back, and only what has a path
/// of its own is looked at again before it is reclaimed.
pub proof fn law_only_the_trash_gives_back(m: ReclaimMethod, gone: bool, at_path: bool)
    requires
        call_ensures(ReclaimMethod::is_irreversible, (&m,), gone),
        call_ensures(ReclaimMethod::acts_on_path, (&m,), at_path),
    ensures
        gone == !(m is MoveToTrash),
        at_path == (m is MoveToTrash || m is TrashEmpty || m is SystemFile || m is Unlink),
{
}

/// A size is written as its own figure.
pub proof fn law_a_size_is_written_as_it_is(bytes: u64, text: String)
    requires
        call_ensures(format_bytes, (bytes,), text),
    ensures
        bytes < 1024 ==> text@ == decimal(bytes as nat) + " B"@,
        1024 <= bytes < 1048576 ==> writes_tenths(text@, bytes as nat, 1024, " KiB"@),
        1048576 <= bytes < 1073741824 ==> writes_tenths(text@, bytes as nat, 1048576, " MiB"@),
        1073741824 <= bytes < 1099511627776 ==> writes_tenths(
            text@,
            bytes as nat,
            1073741824,
            " GiB"@,
        ),
        1099511627776 <= bytes ==> writes_tenths(text@, bytes as nat, 1099511627776, " TiB"@),
{
    law_a_size_is_written_in_its_unit(bytes as nat);
}

/// No two managers have one name, nor any two scopes.
pub proof fn law_names_tell_apart(
    a: Manager,
    b: Manager,
    x: &'static str,
    y: &'static str,
    s: PruneScope,
    t: PruneScope,
    p: &'static str,
    q: &'static str,
)
    requires
        call_ensures(Manager::name, (&a,), x),
        call_ensures(Manager::name, (&b,), y),
        call_ensures(PruneScope::name, (&s,), p),
        call_ensures(PruneScope::name, (&t,), q),
    ensures
        (x@ == y@) == (a == b),
        (p@ == q@) == (s == t),
        a == Manager::Apt ==> x@ == "apt"@,
        a == Manager::Dnf ==> x@ == "dnf"@,
        a == Manager::Pacman ==> x@ == "pacman"@,
        a == Manager::Zypper ==> x@ == "zypper"@,
{
    reveal_strlit("apt");
    reveal_strlit("dnf");
    reveal_strlit("pacman");
    reveal_strlit("zypper");
    reveal_strlit("build cache");
    reveal_strlit("dangling images");
    reveal_strlit("unused images");
    reveal_strlit("stopped containers");
    assert("apt"@[0] == 'a' && "dnf"@[0] == 'd' && "pacman"@[0] == 'p' && "zypper"@[0] == 'z');
    assert("build cache"@[0] == 'b' && "dangling images"@[0] == 'd' && "unused images"@[0] == 'u'
        && "stopped containers"@[0] == 's');
}

} // verus!
