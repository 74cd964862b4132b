//! dpkg and APT: their output, and which kernels are safe to remove.
//!
//! Never the running kernel, and never the newest installed one, which is
//! what the machine boots next after an upgrade. So only kernels strictly
//! older than both are offered.
use std::cmp::Ordering;
use vstd::prelude::*;
use vstd::string::*;
use crate::caps::{Capabilities, Capability};
use crate::decimal::{parse_scaled, scaled_number};
use crate::double::capped;
use crate::error::{AppError, ErrorCode, Result};
use crate::order::{holds_last, in_order, last_value, lemma_holds_insert, lemma_holds_nothing, lemma_holds_skip, lemma_numbers_irreflexive, lemma_numbers_total, lemma_numbers_transitive, numbers_before, numbers_less, sort, text_less, Ordered, Ranked, TextMap};
use crate::space::Manager;
use crate::text::{after_prefix, begins, chars_of, decimal, find_text, is_digit, is_space, is_text, is_whitespace, join_with, joined_with, lines, number, number_or_zero, opt_text, parse_u64, parted, pieces, remove_char, same_str, split_lines, split_nondigits, split_on, split_once, split_where, split_words, starts_with, string_of, strip_prefix, text_at, texts, trim, trimmed, views, without, words};
use super::{block_bytes, capped_add, measure_paths, measured_of, owned_args, package_text, package_texts, plain_package, with_names, Backend, Measured, Package, PackageText, PathFact, Query, RemovalPreview, ResidualConfig};

verus! {

broadcast use vstd::string::group_string_axioms;

// ---------------------------------------------------------------------------
// Kernel versions
// ---------------------------------------------------------------------------

/// Prefixes of the packages that make up a kernel, longer before shorter
/// where one begins with the other.
pub open spec fn kernel_prefixes() -> Seq<Seq<char>> {
    seq![
        "linux-modules-extra-"@,
        "linux-headers-"@,
        "linux-modules-"@,
        "linux-image-unsigned-"@,
        "linux-image-"@,
        "linux-tools-"@,
        "linux-cloud-tools-"@,
        "linux-buildinfo-"@,
    ]
}

/// A kernel's version and flavour, such as `6.8.0-138-generic`.
#[derive(Debug, PartialEq, Eq)]
pub struct KernelVersion(pub String);

impl Clone for KernelVersion {
    fn clone(&self) -> (r: Self)
        ensures
            r == *self,
    {
        KernelVersion(self.0.clone())
    }
}

/// What follows the first of some prefixes that a name has, where a digit
/// begins it.
pub open spec fn version_after(prefixes: Seq<Seq<char>>, name: Seq<char>) -> Option<Seq<char>>
    decreases prefixes.len(),
{
    if prefixes.len() == 0 {
        None
    } else {
        match after_prefix(name, prefixes[0]) {
            Some(rest) => if rest.len() > 0 && is_digit(rest[0]) {
                Some(rest)
            } else {
                None
            },
            None => version_after(prefixes.skip(1), name),
        }
    }
}

/// The kernel version that a package is named for. A metapackage has none:
/// what follows its prefix is a name.
pub open spec fn version_in(name: Seq<char>) -> Option<Seq<char>> {
    version_after(kernel_prefixes(), name)
}

/// Whether a piece of a version is made of digits and dots.
pub open spec fn is_numeric_piece(s: Seq<char>) -> bool {
    s.len() > 0 && forall|i: int| 0 <= i < s.len() ==> (is_digit(#[trigger] s[i]) || s[i] == '.')
}

/// The numeric pieces at the front.
pub open spec fn numeric_front(p: Seq<Seq<char>>) -> Seq<Seq<char>>
    decreases p.len(),
{
    if p.len() == 0 || !is_numeric_piece(p[0]) {
        Seq::empty()
    } else {
        seq![p[0]] + numeric_front(p.skip(1))
    }
}

/// The numeric core of a version, without the flavour.
pub open spec fn base_of(version: Seq<char>) -> Seq<char> {
    joined_with(numeric_front(pieces(version, '-')), "-"@)
}

/// The flavour of a version, where it names one.
pub open spec fn flavour_of(version: Seq<char>) -> Option<Seq<char>> {
    match after_prefix(version, base_of(version)) {
        Some(rest) => match after_prefix(rest, "-"@) {
            Some(f) if f.len() > 0 => Some(f),
            _ => None,
        },
        None => None,
    }
}

/// The numbers among some pieces.
pub open spec fn numbers_of(p: Seq<Seq<char>>) -> Seq<u64>
    decreases p.len(),
{
    if p.len() == 0 {
        Seq::empty()
    } else {
        match number(p.last()) {
            Some(n) => numbers_of(p.drop_last()).push(n),
            None => numbers_of(p.drop_last()),
        }
    }
}

/// The numbers in a version, in order.
pub open spec fn segments_of(version: Seq<char>) -> Seq<u64> {
    numbers_of(split_where(version, |c: char| !is_digit(c)))
}

/// Whether one version is strictly older than another.
pub open spec fn older(a: Seq<char>, b: Seq<char>) -> bool {
    numbers_less(segments_of(a), segments_of(b))
}

fn numeric_piece(s: &[char]) -> (r: bool)
    ensures
        r == is_numeric_piece(s@),
{
    if s.len() == 0 {
        return false;
    }
    let mut i: usize = 0;
    while i < s.len()
        invariant
            i <= s@.len(),
            s@.len() > 0,
            forall|k: int| 0 <= k < i ==> (is_digit(#[trigger] s@[k]) || s@[k] == '.'),
        decreases s@.len() - i,
    {
        if (s[i] < '0' || s[i] > '9') && s[i] != '.' {
            assert(!(is_digit(s@[i as int]) || s@[i as int] == '.'));
            return false;
        }
        i = i + 1;
    }
    true
}

fn prefixes() -> (r: Vec<&'static str>)
    ensures
        r@.len() == kernel_prefixes().len(),
        forall|i: int| 0 <= i < r@.len() ==> (#[trigger] r@[i])@ == kernel_prefixes()[i],
{
    vec![
        "linux-modules-extra-",
        "linux-headers-",
        "linux-modules-",
        "linux-image-unsigned-",
        "linux-image-",
        "linux-tools-",
        "linux-cloud-tools-",
        "linux-buildinfo-",
    ]
}

/// The numbers in a version, in order.
fn segments(version: &str) -> (r: Vec<u64>)
    ensures
        r@ == segments_of(version@),
{
    let chars = chars_of(version);
    let parts = split_nondigits(chars.as_slice());
    let ghost all = views(parts@);
    let mut out: Vec<u64> = Vec::new();
    let mut i: usize = 0;
    assert(all.take(0) =~= Seq::<Seq<char>>::empty());
    while i < parts.len()
        invariant
            i <= parts@.len(),
            all == views(parts@),
            out@ == numbers_of(all.take(i as int)),
        decreases parts@.len() - i,
    {
        assert(all.take(i + 1).drop_last() =~= all.take(i as int));
        assert(all.take(i + 1).last() == parts@[i as int]@);
        if let Some(n) = parse_u64(parts[i]) {
            out.push(n);
        }
        i = i + 1;
    }
    assert(all.take(i as int) =~= all);
    out
}

impl KernelVersion {
    /// The version that a kernel package is named for, if it is one.
    pub fn from_package(name: &str) -> (r: Option<Self>)
        ensures
            match r {
                Some(v) => version_in(name@) == Some(v.0@),
                None => version_in(name@) is None,
            },
    {
        let chars = chars_of(name);
        let all = prefixes();
        let ghost table = kernel_prefixes();
        let mut i: usize = 0;
        assert(table.skip(0) =~= table);
        while i < all.len()
            invariant
                i <= all@.len(),
                chars@ == name@,
                table == kernel_prefixes(),
                all@.len() == table.len(),
                forall|k: int| 0 <= k < all@.len() ==> (#[trigger] all@[k])@ == table[k],
                version_after(table.skip(i as int), name@) == version_in(name@),
            decreases all@.len() - i,
        {
            assert(all@[i as int]@ == table[i as int]);
            assert(table.skip(i as int)[0] == table[i as int]);
            if let Some(rest) = strip_prefix(chars.as_slice(), all[i]) {
                if rest.len() > 0 && '0' <= rest[0] && rest[0] <= '9' {
                    return Some(KernelVersion(string_of(rest)));
                }
                return None;
            }
            assert(table.skip(i as int).skip(1) =~= table.skip(i + 1));
            i = i + 1;
        }
        None
    }

    /// The numeric core of the version, without the flavour. Packages of one
    /// kernel are named with a flavour and without, and share this.
    pub fn base(&self) -> (r: String)
        ensures
            r@ == base_of(self.0@),
    {
        let chars = chars_of(self.0.as_str());
        let parts = split_on(chars.as_slice(), '-');
        let ghost all = views(parts@);
        let mut kept: Vec<&[char]> = Vec::new();
        let mut i: usize = 0;
        proof {
            assert(all.skip(0) =~= all);
            assert(views(kept@) + numeric_front(all) =~= numeric_front(all));
        }
        while i < parts.len() && numeric_piece(parts[i])
            invariant
                i <= parts@.len(),
                all == views(parts@),
                views(kept@) + numeric_front(all.skip(i as int)) == numeric_front(all),
            decreases parts@.len() - i,
        {
            let ghost before = views(kept@);
            let ghost rest = all.skip(i as int);
            assert(rest[0] == parts@[i as int]@);
            assert(rest.skip(1) =~= all.skip(i + 1));
            kept.push(parts[i]);
            assert(views(kept@) =~= before.push(rest[0]));
            assert(views(kept@) + numeric_front(all.skip(i + 1)) =~= before + (seq![rest[0]]
                + numeric_front(rest.skip(1))));
            i = i + 1;
        }
        assert(numeric_front(all.skip(i as int)) =~= Seq::<Seq<char>>::empty()) by {
            if i < parts@.len() {
                assert(all.skip(i as int)[0] == parts@[i as int]@);
            }
        }
        assert(views(kept@) =~= numeric_front(all));
        join_with(&kept, "-")
    }

    /// The flavour, if the version names one.
    pub fn flavour(&self) -> (r: Option<String>)
        ensures
            opt_text(r) == flavour_of(self.0@),
    {
        let base = self.base();
        let chars = chars_of(self.0.as_str());
        match strip_prefix(chars.as_slice(), base.as_str()) {
            Some(rest) => match strip_prefix(rest, "-") {
                Some(f) => if f.len() > 0 {
                    Some(string_of(f))
                } else {
                    None
                },
                None => None,
            },
            None => None,
        }
    }

    /// Compares two versions by their numbers, one after the other.
    pub fn compare(&self, other: &Self) -> (r: Ordering)
        ensures
            r == if older(self.0@, other.0@) {
                Ordering::Less
            } else if older(other.0@, self.0@) {
                Ordering::Greater
            } else {
                Ordering::Equal
            },
    {
        let a = segments(self.0.as_str());
        let b = segments(other.0.as_str());
        if numbers_before(&a, &b) {
            Ordering::Less
        } else if numbers_before(&b, &a) {
            Ordering::Greater
        } else {
            Ordering::Equal
        }
    }

    /// Whether this version is strictly older than another.
    fn is_older(&self, other: &Self) -> (r: bool)
        ensures
            r == older(self.0@, other.0@),
    {
        let a = segments(self.0.as_str());
        let b = segments(other.0.as_str());
        numbers_before(&a, &b)
    }
}

/// The kernel that a machine runs, from what the kernel says of itself.
pub fn running_kernel(osrelease: Option<&str>) -> (r: Option<KernelVersion>)
    ensures
        match osrelease {
            Some(t) => r matches Some(v) && v.0@ == trimmed(t@),
            None => r is None,
        },
{
    match osrelease {
        Some(t) => {
            let chars = chars_of(t);
            Some(KernelVersion(string_of(trim(chars.as_slice()))))
        },
        None => None,
    }
}

// ---------------------------------------------------------------------------
// Kernel sets
// ---------------------------------------------------------------------------

/// A kernel version and every package belonging to it.
#[derive(Debug, PartialEq, Eq)]
pub struct KernelSet {
    pub version: KernelVersion,
    pub packages: Vec<Package>,
}

/// What some packages are recorded to take together.
pub open spec fn recorded_total(s: Seq<Package>) -> nat
    decreases s.len(),
{
    if s.len() == 0 {
        0
    } else {
        recorded_total(s.drop_last()) + s.last().recorded_bytes as nat
    }
}

impl KernelSet {
    /// What the set is recorded to take, as far as 64 bits hold it.
    pub fn bytes(&self) -> (r: u64)
        ensures
            r == capped(recorded_total(self.packages@)),
    {
        let mut sum: u64 = 0;
        let mut i: usize = 0;
        assert(self.packages@.take(0) =~= Seq::<Package>::empty());
        while i < self.packages.len()
            invariant
                i <= self.packages@.len(),
                sum == capped(recorded_total(self.packages@.take(i as int))),
            decreases self.packages@.len() - i,
        {
            assert(self.packages@.take(i + 1).drop_last() =~= self.packages@.take(i as int));
            sum = capped_add(sum, self.packages[i].recorded_bytes);
            i = i + 1;
        }
        assert(self.packages@.take(i as int) =~= self.packages@);
        sum
    }
}

/// The numeric core of the kernel that a package belongs to.
pub open spec fn kernel_base(p: Package) -> Option<Seq<char>> {
    match version_in(p.name@) {
        Some(v) => Some(base_of(v)),
        None => None,
    }
}

/// The packages of one kernel, in order.
pub open spec fn members(packages: Seq<Package>, base: Seq<char>) -> Seq<Package>
    decreases packages.len(),
{
    if packages.len() == 0 {
        packages
    } else if kernel_base(packages.last()) == Some(base) {
        members(packages.drop_last(), base).push(packages.last())
    } else {
        members(packages.drop_last(), base)
    }
}

/// How many bytes a text takes in UTF-8.
pub open spec fn byte_length(s: Seq<char>) -> usize {
    vstd::utf8::encode_utf8(s).len() as usize
}

/// The fullest spelling of a kernel's version among its packages, and of
/// equals the first.
pub open spec fn spelling(packages: Seq<Package>, base: Seq<char>) -> Option<Seq<char>>
    decreases packages.len(),
{
    if packages.len() == 0 {
        None
    } else {
        let before = spelling(packages.drop_last(), base);
        match version_in(packages.last().name@) {
            Some(v) if base_of(v) == base => match before {
                Some(b) => if byte_length(v) > byte_length(b) {
                    Some(v)
                } else {
                    before
                },
                None => Some(v),
            },
            _ => before,
        }
    }
}

/// The numeric cores that occur among some packages.
pub open spec fn bases_of(packages: Seq<Package>) -> Seq<Option<(Seq<char>, bool)>> {
    packages.map_values(
        |p: Package|
            match kernel_base(p) {
                Some(b) => Some((b, true)),
                None => None,
            },
    )
}

/// Whether some sets are the kernels among some packages: one for each
/// numeric core that occurs, in the order of the cores, each with all of its
/// packages and the fullest spelling of its version.
pub open spec fn grouped(packages: Seq<Package>, sets: Seq<KernelSet>, bases: Seq<Seq<char>>) -> bool {
    &&& sets.len() == bases.len()
    &&& forall|i: int, j: int|
        0 <= i < j < bases.len() ==> text_less(#[trigger] bases[i], #[trigger] bases[j])
    &&& forall|b: Seq<char>| #[trigger]
        bases.contains(b) <==> last_value(bases_of(packages), b) is Some
    &&& forall|i: int|
        0 <= i < sets.len() ==> {
            &&& spelling(packages, #[trigger] bases[i]) == Some(sets[i].version.0@)
            &&& sets[i].packages@ == members(packages, bases[i])
            &&& base_of(sets[i].version.0@) == bases[i]
        }
}

proof fn lemma_spelling(packages: Seq<Package>, base: Seq<char>)
    ensures
        spelling(packages, base) is Some <==> last_value(bases_of(packages), base) is Some,
        spelling(packages, base) matches Some(v) ==> base_of(v) == base,
    decreases packages.len(),
{
    if packages.len() > 0 {
        lemma_spelling(packages.drop_last(), base);
        assert(bases_of(packages).drop_last() =~= bases_of(packages.drop_last()));
    }
}

/// The bases that occur among some packages.
fn collect_bases(packages: &Vec<Package>) -> (r: TextMap<bool>)
    ensures
        holds_last(r, bases_of(packages@)),
{
    let ghost all = bases_of(packages@);
    let mut out: TextMap<bool> = TextMap::new();
    let mut i: usize = 0;
    proof {
        lemma_holds_nothing(out, all.take(0));
    }
    while i < packages.len()
        invariant
            i <= packages@.len(),
            all == bases_of(packages@),
            holds_last(out, all.take(i as int)),
        decreases packages@.len() - i,
    {
        let ghost before = out;
        let ghost next = all.take(i + 1);
        assert(next.drop_last() =~= all.take(i as int));
        match KernelVersion::from_package(packages[i].name.as_str()) {
            Some(v) => {
                let base = v.base();
                out.insert(base.as_str(), true);
                proof {
                    lemma_holds_insert(before, out, next, base@, true);
                }
            },
            None => {
                proof {
                    lemma_holds_skip(out, next);
                }
            },
        }
        i = i + 1;
    }
    assert(all.take(i as int) =~= all);
    out
}

/// One kernel with all of its packages.
fn gather(packages: &Vec<Package>, base: &str) -> (r: Option<KernelSet>)
    ensures
        match r {
            Some(s) => spelling(packages@, base@) == Some(s.version.0@) && s.packages@ == members(
                packages@,
                base@,
            ),
            None => spelling(packages@, base@) is None,
        },
{
    let mut version: Option<KernelVersion> = None;
    let mut found: Vec<Package> = Vec::new();
    let mut i: usize = 0;
    assert(packages@.take(0) =~= Seq::<Package>::empty());
    while i < packages.len()
        invariant
            i <= packages@.len(),
            found@ == members(packages@.take(i as int), base@),
            match version {
                Some(v) => spelling(packages@.take(i as int), base@) == Some(v.0@),
                None => spelling(packages@.take(i as int), base@) is None,
            },
        decreases packages@.len() - i,
    {
        assert(packages@.take(i + 1).drop_last() =~= packages@.take(i as int));
        assert(packages@.take(i + 1).last() == packages@[i as int]);
        if let Some(v) = KernelVersion::from_package(packages[i].name.as_str()) {
            let its_base = v.base();
            if same_str(its_base.as_str(), base) {
                found.push(packages[i].clone());
                version = match version {
                    Some(b) => if v.0.as_str().len() > b.0.as_str().len() {
                        Some(v)
                    } else {
                        Some(b)
                    },
                    None => Some(v),
                };
            }
        }
        i = i + 1;
    }
    assert(packages@.take(i as int) =~= packages@);
    match version {
        Some(version) => Some(KernelSet { version, packages: found }),
        None => None,
    }
}

/// Groups installed packages into kernels, by the numeric core of the
/// version, so that the parts of one kernel come together.
pub fn kernel_sets(packages: &Vec<Package>) -> (r: Vec<KernelSet>)
    ensures
        exists|bases: Seq<Seq<char>>| #[trigger] grouped(packages@, r@, bases),
{
    let map = collect_bases(packages);
    let ghost bases = Seq::new(map.pairs().len(), |i: int| map.pairs()[i].0);
    let mut sets: Vec<KernelSet> = Vec::new();
    let mut i: usize = 0;
    while i < map.len()
        invariant
            i <= map.pairs().len(),
            holds_last(map, bases_of(packages@)),
            bases == Seq::new(map.pairs().len(), |i: int| map.pairs()[i].0),
            sets@.len() == i,
            forall|k: int|
                0 <= k < i ==> {
                    &&& spelling(packages@, #[trigger] bases[k]) == Some(sets@[k].version.0@)
                    &&& sets@[k].packages@ == members(packages@, bases[k])
                    &&& base_of(sets@[k].version.0@) == bases[k]
                },
        decreases map.pairs().len() - i,
    {
        let (base, _) = map.entry(i);
        proof {
            assert(bases[i as int] == base@);
            assert(map.has(base@)) by {
                assert(map.pairs()[i as int].0 == base@);
            }
            lemma_spelling(packages@, base@);
        }
        if let Some(set) = gather(packages, base) {
            sets.push(set);
        }
        i = i + 1;
    }
    proof {
        assert forall|b: Seq<char>| #[trigger] bases.contains(b) <==> last_value(
            bases_of(packages@),
            b,
        ) is Some by {
            assert(map.has(b) <==> last_value(bases_of(packages@), b) is Some);
            if bases.contains(b) {
                let k = choose|k: int| 0 <= k < bases.len() && bases[k] == b;
                assert(map.pairs()[k].0 == b);
            }
            if map.has(b) {
                let k = choose|k: int|
                    0 <= k < map.pairs().len() && (#[trigger] map.pairs()[k]).0 == b;
                assert(bases[k] == b);
            }
        }
        assert forall|i: int, j: int| 0 <= i < j < bases.len() implies text_less(
            #[trigger] bases[i],
            #[trigger] bases[j],
        ) by {
            assert(text_less(map.pairs()[i].0, map.pairs()[j].0));
        }
        assert(grouped(packages@, sets@, bases));
    }
    sets
}

impl Ordered for KernelSet {
    open spec fn precedes(b: Self, a: Self) -> bool {
        older(b.version.0@, a.version.0@)
    }
}

impl Ranked for KernelSet {
    fn comes_before(&self, other: &Self) -> bool {
        self.version.is_older(&other.version)
    }
}

/// The newest of some kernels, and of equals the last; -1 where there is
/// none.
pub open spec fn newest_at(sets: Seq<KernelSet>) -> int
    decreases sets.len(),
{
    if sets.len() == 0 {
        -1
    } else {
        let before = newest_at(sets.drop_last());
        if before < 0 || !older(sets.last().version.0@, sets[before].version.0@) {
            sets.len() - 1
        } else {
            before
        }
    }
}

/// Whether a kernel is superseded by another: it is strictly older, and not
/// the same one spelled otherwise.
pub open spec fn superseded(version: Seq<char>, by: Seq<char>) -> bool {
    older(version, by) && base_of(version) != base_of(by)
}

/// Whether a kernel may be removed, given the newest installed one and the
/// running one.
pub open spec fn may_go(
    version: Seq<char>,
    newest: Seq<char>,
    running: Option<Seq<char>>,
) -> bool {
    superseded(version, newest) && (running matches Some(r) ==> superseded(version, r))
}

/// The kernels that may be removed, in order.
pub open spec fn kept(
    sets: Seq<KernelSet>,
    newest: Seq<char>,
    running: Option<Seq<char>>,
) -> Seq<KernelSet>
    decreases sets.len(),
{
    if sets.len() == 0 {
        sets
    } else if may_go(sets.last().version.0@, newest, running) {
        kept(sets.drop_last(), newest, running).push(sets.last())
    } else {
        kept(sets.drop_last(), newest, running)
    }
}

/// What the running kernel is, as text.
pub open spec fn running_text(running: Option<&KernelVersion>) -> Option<Seq<char>> {
    match running {
        Some(v) => Some(v.0@),
        None => None,
    }
}

/// Whether `r` is what may be removed of some kernels: oldest first.
pub open spec fn offers_of(
    sets: Seq<KernelSet>,
    running: Option<Seq<char>>,
    r: Seq<KernelSet>,
) -> bool {
    if sets.len() == 0 {
        r.len() == 0
    } else {
        r == in_order(kept(sets, sets[newest_at(sets)].version.0@, running))
    }
}

/// The kernels that are safe to remove: strictly older than both the running
/// kernel and the newest installed one. Oldest first.
pub fn removable_kernels(packages: &Vec<Package>, running: Option<&KernelVersion>) -> (r: Vec<
    KernelSet,
>)
    ensures
        exists|sets: Seq<KernelSet>, bases: Seq<Seq<char>>| #[trigger]
            grouped(packages@, sets, bases) && offers_of(sets, running_text(running), r@),
{
    let sets = kernel_sets(packages);
    let ghost all = sets@;
    let ghost run = running_text(running);
    let ghost bases = choose|bases: Seq<Seq<char>>| #[trigger] grouped(packages@, all, bases);
    if sets.len() == 0 {
        let out: Vec<KernelSet> = Vec::new();
        assert(offers_of(all, run, out@));
        return out;
    }
    let mut newest: usize = 0;
    let mut i: usize = 1;
    proof {
        assert(all.take(1).drop_last() =~= Seq::<KernelSet>::empty());
        assert(newest_at(all.take(1).drop_last()) == -1);
        assert(newest_at(all.take(1)) == 0);
    }
    while i < sets.len()
        invariant
            1 <= i <= sets@.len(),
            all == sets@,
            newest < i,
            newest == newest_at(all.take(i as int)),
        decreases sets@.len() - i,
    {
        assert(all.take(i + 1).drop_last() =~= all.take(i as int));
        assert(all.take(i + 1)[newest as int] == all[newest as int]);
        if !sets[i].version.is_older(&sets[newest].version) {
            newest = i;
        }
        i = i + 1;
    }
    assert(all.take(i as int) =~= all);
    let top = sets[newest].version.clone();
    let top_base = top.base();
    let ghost top_text = top.0@;
    let mut out: Vec<KernelSet> = Vec::new();
    assert(all.take(0) =~= Seq::<KernelSet>::empty());
    for set in it: sets
        invariant
            it.seq() == all,
            top_text == top.0@,
            top_base@ == base_of(top_text),
            run == running_text(running),
            out@ == kept(all.take(it.index() as int), top_text, run),
    {
        let ghost n = it.index() as int;
        assert(all.take(n + 1).drop_last() =~= all.take(n));
        assert(all.take(n + 1).last() == set);
        let base = set.version.base();
        let mut go = set.version.is_older(&top) && !same_str(base.as_str(), top_base.as_str());
        if let Some(r) = running {
            let running_base = r.base();
            go = go && set.version.is_older(r) && !same_str(
                base.as_str(),
                running_base.as_str(),
            );
        }
        if go {
            out.push(set);
        }
    }
    assert(all.take(all.len() as int) =~= all);
    let out = sort(out);
    assert(grouped(packages@, all, bases) && offers_of(all, run, out@));
    out
}

proof fn lemma_newest(sets: Seq<KernelSet>)
    ensures
        -1 <= newest_at(sets) < sets.len(),
        sets.len() > 0 ==> newest_at(sets) >= 0,
        forall|k: int|
            0 <= k < sets.len() ==> !older(
                sets[newest_at(sets)].version.0@,
                (#[trigger] sets[k]).version.0@,
            ),
    decreases sets.len(),
{
    if sets.len() > 0 {
        lemma_newest(sets.drop_last());
        let before = newest_at(sets.drop_last());
        let now = newest_at(sets);
        assert forall|k: int| 0 <= k < sets.len() implies !older(
            sets[now].version.0@,
            (#[trigger] sets[k]).version.0@,
        ) by {
            let a = segments_of(sets[now].version.0@);
            let b = segments_of(sets[k].version.0@);
            if k == now {
                lemma_numbers_irreflexive(a);
            } else if k == sets.len() - 1 {
                lemma_numbers_total(b, a);
            } else {
                assert(sets.drop_last()[k] == sets[k]);
                let c = segments_of(sets[before].version.0@);
                assert(!numbers_less(c, b));
                if now == sets.len() - 1 && before >= 0 {
                    assert(!numbers_less(a, c));
                    if numbers_less(a, b) {
                        lemma_numbers_total(b, c);
                        if b != c {
                            lemma_numbers_transitive(a, b, c);
                        }
                    }
                }
            }
        }
    }
}

proof fn lemma_kept(sets: Seq<KernelSet>, newest: Seq<char>, running: Option<Seq<char>>)
    ensures
        forall|i: int|
            0 <= i < kept(sets, newest, running).len() ==> may_go(
                (#[trigger] kept(sets, newest, running)[i]).version.0@,
                newest,
                running,
            ),
    decreases sets.len(),
{
    if sets.len() > 0 {
        lemma_kept(sets.drop_last(), newest, running);
        let before = kept(sets.drop_last(), newest, running);
        let now = kept(sets, newest, running);
        assert forall|i: int| 0 <= i < now.len() implies may_go(
            (#[trigger] now[i]).version.0@,
            newest,
            running,
        ) by {
            if i < before.len() {
                assert(now[i] == before[i]);
            }
        }
    }
}

proof fn lemma_sorted_contains(s: Seq<KernelSet>)
    ensures
        in_order(s).len() == s.len(),
        forall|i: int| 0 <= i < s.len() ==> s.contains(#[trigger] in_order(s)[i]),
{
    broadcast use vstd::seq_lib::group_to_multiset_ensures;

    crate::order::law_sorting_keeps_every_element(s);
    assert forall|i: int| 0 <= i < s.len() implies s.contains(#[trigger] in_order(s)[i]) by {
        let x = in_order(s)[i];
        assert(in_order(s).contains(x));
        assert(in_order(s).to_multiset().count(x) > 0);
        assert(s.to_multiset().count(x) > 0);
    }
}

/// No kernel that is offered is the running one, however either is spelled,
/// and every one is strictly older than it.
pub proof fn law_the_running_kernel_is_never_offered(
    sets: Seq<KernelSet>,
    running: Seq<char>,
    r: Seq<KernelSet>,
    i: int,
)
    requires
        offers_of(sets, Some(running), r),
        0 <= i < r.len(),
    ensures
        older(r[i].version.0@, running),
        base_of(r[i].version.0@) != base_of(running),
{
    let newest = sets[newest_at(sets)].version.0@;
    let k = kept(sets, newest, Some(running));
    lemma_kept(sets, newest, Some(running));
    lemma_sorted_contains(k);
    let j = choose|j: int| 0 <= j < k.len() && k[j] == r[i];
    assert(may_go(k[j].version.0@, newest, Some(running)));
}

/// No kernel that is offered is the newest installed one: there is an
/// installed kernel that is strictly newer than everything offered, and than
/// which no installed one is newer.
pub proof fn law_the_newest_kernel_is_never_offered(
    sets: Seq<KernelSet>,
    running: Option<Seq<char>>,
    r: Seq<KernelSet>,
    i: int,
)
    requires
        offers_of(sets, running, r),
        0 <= i < r.len(),
    ensures
        0 <= newest_at(sets) < sets.len(),
        older(r[i].version.0@, sets[newest_at(sets)].version.0@),
        base_of(r[i].version.0@) != base_of(sets[newest_at(sets)].version.0@),
        forall|k: int|
            0 <= k < sets.len() ==> !older(
                sets[newest_at(sets)].version.0@,
                (#[trigger] sets[k]).version.0@,
            ),
{
    lemma_newest(sets);
    let newest = sets[newest_at(sets)].version.0@;
    let k = kept(sets, newest, running);
    lemma_kept(sets, newest, running);
    lemma_sorted_contains(k);
    let j = choose|j: int| 0 <= j < k.len() && k[j] == r[i];
    assert(may_go(k[j].version.0@, newest, running));
}

/// A machine with a single kernel is offered none.
pub proof fn law_a_single_kernel_is_never_offered(
    sets: Seq<KernelSet>,
    running: Option<Seq<char>>,
    r: Seq<KernelSet>,
)
    requires
        offers_of(sets, running, r),
        sets.len() <= 1,
    ensures
        r.len() == 0,
{
    if sets.len() == 1 {
        lemma_newest(sets);
        let newest = sets[newest_at(sets)].version.0@;
        lemma_numbers_irreflexive(segments_of(newest));
        assert(sets.drop_last() =~= Seq::<KernelSet>::empty());
        assert(kept(sets.drop_last(), newest, running).len() == 0);
        assert(newest_at(sets) == 0);
        assert(!may_go(sets.last().version.0@, newest, running));
        lemma_sorted_contains(kept(sets, newest, running));
    }
}

/// The offers are listed oldest first.
pub proof fn law_oldest_first(
    sets: Seq<KernelSet>,
    running: Option<Seq<char>>,
    r: Seq<KernelSet>,
    i: int,
    j: int,
)
    requires
        offers_of(sets, running, r),
        0 <= i < j < r.len(),
    ensures
        !older(r[j].version.0@, r[i].version.0@),
{
    assert forall|a: KernelSet, b: KernelSet| #[trigger]
        KernelSet::precedes(a, b) implies !KernelSet::precedes(b, a) by {
        lemma_numbers_total(segments_of(a.version.0@), segments_of(b.version.0@));
    }
    assert forall|a: KernelSet, b: KernelSet, c: KernelSet| #[trigger]
        KernelSet::precedes(a, b) && !(#[trigger] KernelSet::precedes(c, b)) implies KernelSet::precedes(
        a,
        c,
    ) by {
        let x = segments_of(a.version.0@);
        let y = segments_of(b.version.0@);
        let z = segments_of(c.version.0@);
        lemma_numbers_total(y, z);
        if y != z {
            lemma_numbers_transitive(x, y, z);
        }
    }
    let k = kept(sets, sets[newest_at(sets)].version.0@, running);
    crate::order::law_sorted_is_ordered(k);
    assert(!KernelSet::precedes(r[j], r[i]));
}

// ---------------------------------------------------------------------------
// What is installed
// ---------------------------------------------------------------------------

/// The format in which installed packages are asked for. The summary is the
/// one field that a package's maintainer writes, so it comes last: a tab in it
/// cannot shift another field.
pub const INSTALLED_QUERY: &'static str =
    "-f=${Package}\t${Architecture}\t${Version}\t${Installed-Size}\t${db:Status-Status}\t${db:Status-Want}\t${binary:Summary}\n";

/// The format in which the state of packages is asked for.
pub const RESIDUAL_QUERY: &'static str = "-f=${Package}\t${db:Status-Abbrev}\n";

/// The format in which configuration files are asked for.
pub const CONFFILES_QUERY: &'static str = "-f=${Package}\n${Conffiles}\n";

/// The pieces of a line from the seventh on.
pub open spec fn summary_pieces(f: Seq<Seq<char>>) -> Seq<Seq<char>> {
    if f.len() > 6 {
        f.skip(6)
    } else {
        Seq::empty()
    }
}

/// The package that a line says is installed. Sizes are in kibibytes.
pub open spec fn installed_line(line: Seq<char>) -> Option<PackageText> {
    let f = pieces(line, '\t');
    if f.len() < 5 || trimmed(f[4]) != "installed"@ || trimmed(f[0]).len() == 0 {
        None
    } else {
        Some(
            plain_package(
                trimmed(f[0]),
                trimmed(f[1]),
                trimmed(f[2]),
                trimmed(joined_with(summary_pieces(f), " "@)),
                capped((number_or_zero(trimmed(f[3])) * 1024) as nat),
                f.len() > 5 && trimmed(f[5]) == "install"@,
                Manager::Apt,
            ),
        )
    }
}

/// The packages that some lines say are installed, in order.
pub open spec fn installed_lines(all: Seq<Seq<char>>) -> Seq<PackageText>
    decreases all.len(),
{
    if all.len() == 0 {
        Seq::empty()
    } else {
        match installed_line(all.last()) {
            Some(p) => installed_lines(all.drop_last()).push(p),
            None => installed_lines(all.drop_last()),
        }
    }
}

/// The slices from a place on.
pub(crate) fn from_place<'a>(fields: &Vec<&'a [char]>, start: usize) -> (r: Vec<&'a [char]>)
    ensures
        views(r@) == if fields@.len() > start {
            views(fields@).skip(start as int)
        } else {
            Seq::empty()
        },
{
    let mut out: Vec<&'a [char]> = Vec::new();
    let mut i: usize = start;
    if fields.len() <= start {
        assert(views(out@) =~= Seq::<Seq<char>>::empty());
        return out;
    }
    assert(views(out@) =~= views(fields@).subrange(start as int, start as int));
    while i < fields.len()
        invariant
            start <= i <= fields@.len(),
            views(out@) == views(fields@).subrange(start as int, i as int),
        decreases fields@.len() - i,
    {
        let ghost before = views(out@);
        out.push(fields[i]);
        assert(views(out@) =~= before.push(fields@[i as int]@));
        assert(views(fields@).subrange(start as int, i + 1) =~= before.push(fields@[i as int]@));
        i = i + 1;
    }
    assert(views(fields@).subrange(start as int, i as int) =~= views(fields@).skip(start as int));
    out
}

/// A number of kibibytes in bytes, as far as 64 bits hold it.
pub(crate) fn kibibytes(n: u64) -> (r: u64)
    ensures
        r == capped((n * 1024) as nat),
{
    if n > u64::MAX / 1024 {
        u64::MAX
    } else {
        n * 1024
    }
}

fn parse_installed_line(line: &[char]) -> (r: Option<Package>)
    ensures
        match r {
            Some(p) => installed_line(line@) == Some(package_text(p)),
            None => installed_line(line@) is None,
        },
{
    let f = split_on(line, '\t');
    let ghost v = pieces(line@, '\t');
    assert(views(f@) == v);
    assert(f@.len() == v.len());
    if f.len() < 5 {
        return None;
    }
    assert(v[0] == f@[0]@ && v[1] == f@[1]@ && v[2] == f@[2]@ && v[3] == f@[3]@ && v[4]
        == f@[4]@);
    let name = trim(f[0]);
    if !is_text(trim(f[4]), "installed") || name.len() == 0 {
        return None;
    }
    let explicit = if f.len() > 5 {
        assert(v[5] == f@[5]@);
        is_text(trim(f[5]), "install")
    } else {
        false
    };
    let rest = from_place(&f, 6);
    let joined = join_with(&rest, " ");
    let joined_chars = chars_of(joined.as_str());
    let size: u64 = match parse_u64(trim(f[3])) {
        Some(n) => n,
        None => 0,
    };
    Some(
        Package::new(
            string_of(name),
            string_of(trim(f[1])),
            string_of(trim(f[2])),
            string_of(trim(joined_chars.as_slice())),
            kibibytes(size),
            explicit,
            Manager::Apt,
        ),
    )
}

/// Parses the answer to [`INSTALLED_QUERY`].
pub fn parse_installed(output: &str) -> (r: Vec<Package>)
    ensures
        package_texts(r@) == installed_lines(lines(output@)),
{
    let chars = chars_of(output);
    let rows = split_lines(chars.as_slice());
    let ghost all = lines(output@);
    let mut out: Vec<Package> = Vec::new();
    let mut i: usize = 0;
    assert(all.take(0) =~= Seq::<Seq<char>>::empty());
    assert(package_texts(out@) =~= Seq::<PackageText>::empty());
    while i < rows.len()
        invariant
            i <= rows@.len(),
            views(rows@) == all,
            package_texts(out@) == installed_lines(all.take(i as int)),
        decreases rows@.len() - i,
    {
        assert(all.take(i + 1).drop_last() =~= all.take(i as int));
        assert(all.take(i + 1).last() == rows@[i as int]@);
        if let Some(p) = parse_installed_line(rows[i]) {
            let ghost before = package_texts(out@);
            out.push(p);
            assert(package_texts(out@) =~= before.push(package_text(p)));
        }
        i = i + 1;
    }
    assert(all.take(i as int) =~= all);
    out
}

/// The file that holds a package's file list: qualified by architecture where
/// there is such a one, or else by the bare name.
pub open spec fn list_name(
    id: Seq<char>,
    name: Seq<char>,
    qualified: bool,
    plain: bool,
) -> Option<Seq<char>> {
    if qualified {
        Some(id + ".list"@)
    } else if plain {
        Some(name + ".list"@)
    } else {
        None
    }
}

/// Which of the two files that may hold a package's file list there is.
pub fn list_file(id: &str, name: &str, qualified: bool, plain: bool) -> (r: Option<String>)
    ensures
        opt_text(r) == list_name(id@, name@, qualified, plain),
{
    if qualified {
        let mut out = id.to_owned();
        out.append(".list");
        Some(out)
    } else if plain {
        let mut out = name.to_owned();
        out.append(".list");
        Some(out)
    } else {
        None
    }
}

/// The name in an identity, without the architecture.
pub fn name_of(id: &str) -> (r: String)
    ensures
        r@ == match parted(id@, ':') {
            Some((name, _)) => name,
            None => id@,
        },
{
    let chars = chars_of(id);
    match split_once(chars.as_slice(), ':') {
        Some((name, _)) => string_of(name),
        None => id.to_owned(),
    }
}

/// Whether `e` says that a package has no file list.
pub open spec fn lacks_list(e: AppError, id: Seq<char>) -> bool {
    &&& e.code == ErrorCode::NotFound
    &&& e.message@ == "dpkg has no file list for "@ + id + "."@
    &&& opt_text(e.remedy) == Some("Check the package name, including its architecture suffix."@)
    &&& e.cause is None
    &&& e.path is None
}

/// What to say where a package has no file list.
pub fn no_file_list(id: &str) -> (r: AppError)
    ensures
        lacks_list(r, id@),
{
    let mut message = "dpkg has no file list for ".to_owned();
    message.append(id);
    message.append(".");
    AppError::new(ErrorCode::NotFound, message).with_remedy(
        "Check the package name, including its architecture suffix.",
    )
}

/// Dates packages by when their file lists last changed, which is when they
/// were last installed or upgraded.
pub fn fill_changed_at(packages: &mut Vec<Package>, changed: &Vec<Option<u64>>)
    requires
        old(packages)@.len() == changed@.len(),
    ensures
        final(packages)@.len() == old(packages)@.len(),
        forall|i: int|
            0 <= i < changed@.len() ==> #[trigger] final(packages)@[i] == (Package {
                changed_at: changed@[i],
                ..old(packages)@[i]
            }),
{
    let mut i: usize = 0;
    while i < packages.len()
        invariant
            i <= packages@.len() == changed@.len() == old(packages)@.len(),
            forall|k: int|
                0 <= k < i ==> #[trigger] packages@[k] == (Package {
                    changed_at: changed@[k],
                    ..old(packages)@[k]
                }),
            forall|k: int| i <= k < packages@.len() ==> packages@[k] == old(packages)@[k],
        decreases packages@.len() - i,
    {
        let mut dated = packages[i].clone();
        dated.changed_at = changed[i];
        packages.set(i, dated);
        i = i + 1;
    }
}

/// Whether a line of a file list names something worth measuring: an absolute
/// path that is not the root.
pub open spec fn listed_path(line: Seq<char>) -> Option<Seq<char>> {
    let t = trimmed(line);
    if begins(t, "/"@) && t != "/."@ {
        Some(t)
    } else {
        None
    }
}

/// The paths that some lines name, in order.
pub open spec fn listed_paths(all: Seq<Seq<char>>) -> Seq<Seq<char>>
    decreases all.len(),
{
    if all.len() == 0 {
        Seq::empty()
    } else {
        match listed_path(all.last()) {
            Some(p) => listed_paths(all.drop_last()).push(p),
            None => listed_paths(all.drop_last()),
        }
    }
}

/// Parses a package's file list: one absolute path a line.
pub fn parse_file_list(output: &str) -> (r: Vec<String>)
    ensures
        texts(r@) == listed_paths(lines(output@)),
{
    let chars = chars_of(output);
    let rows = split_lines(chars.as_slice());
    let ghost all = lines(output@);
    let mut out: Vec<String> = Vec::new();
    let mut i: usize = 0;
    assert(all.take(0) =~= Seq::<Seq<char>>::empty());
    assert(texts(out@) =~= Seq::<Seq<char>>::empty());
    while i < rows.len()
        invariant
            i <= rows@.len(),
            views(rows@) == all,
            texts(out@) == listed_paths(all.take(i as int)),
        decreases rows@.len() - i,
    {
        assert(all.take(i + 1).drop_last() =~= all.take(i as int));
        assert(all.take(i + 1).last() == rows@[i as int]@);
        let line = trim(rows[i]);
        if starts_with(line, "/") && !is_text(line, "/.") {
            let ghost before = texts(out@);
            let path = string_of(line);
            out.push(path);
            assert(texts(out@) =~= before.push(path@));
        }
        i = i + 1;
    }
    assert(all.take(i as int) =~= all);
    out
}

// ---------------------------------------------------------------------------
// What is left of removed packages
// ---------------------------------------------------------------------------

/// The package that a line says is removed with its configuration left
/// behind.
pub open spec fn residual_line(line: Seq<char>) -> Option<Seq<char>> {
    let f = pieces(line, '\t');
    if f.len() >= 2 && begins(trimmed(f[1]), "rc"@) && trimmed(f[0]).len() > 0 {
        Some(trimmed(f[0]))
    } else {
        None
    }
}

/// The packages that some lines say are removed, in order.
pub open spec fn residual_lines(all: Seq<Seq<char>>) -> Seq<Seq<char>>
    decreases all.len(),
{
    if all.len() == 0 {
        Seq::empty()
    } else {
        match residual_line(all.last()) {
            Some(n) => residual_lines(all.drop_last()).push(n),
            None => residual_lines(all.drop_last()),
        }
    }
}

/// Names of packages that are removed while their configuration remains. Only
/// the names: what such a package is recorded to take is what it took when it
/// was installed.
pub fn parse_residual_names(output: &str) -> (r: Vec<String>)
    ensures
        texts(r@) == residual_lines(lines(output@)),
{
    let chars = chars_of(output);
    let rows = split_lines(chars.as_slice());
    let ghost all = lines(output@);
    let mut out: Vec<String> = Vec::new();
    let mut i: usize = 0;
    assert(all.take(0) =~= Seq::<Seq<char>>::empty());
    assert(texts(out@) =~= Seq::<Seq<char>>::empty());
    while i < rows.len()
        invariant
            i <= rows@.len(),
            views(rows@) == all,
            texts(out@) == residual_lines(all.take(i as int)),
        decreases rows@.len() - i,
    {
        assert(all.take(i + 1).drop_last() =~= all.take(i as int));
        assert(all.take(i + 1).last() == rows@[i as int]@);
        let f = split_on(rows[i], '\t');
        assert(views(f@).len() == f@.len());
        if f.len() >= 2 {
            assert(views(f@)[0] == f@[0]@ && views(f@)[1] == f@[1]@);
            let name = trim(f[0]);
            if starts_with(trim(f[1]), "rc") && name.len() > 0 {
                let ghost before = texts(out@);
                let owned = string_of(name);
                out.push(owned);
                assert(texts(out@) =~= before.push(owned@));
            }
        }
        i = i + 1;
    }
    assert(all.take(i as int) =~= all);
    out
}

/// The packages and their configuration files that some lines give. A line
/// that white space begins belongs to the package above it, and names a file
/// in its first word.
pub open spec fn conffiles_in(all: Seq<Seq<char>>) -> Seq<(Seq<char>, Seq<Seq<char>>)>
    decreases all.len(),
{
    if all.len() == 0 {
        Seq::empty()
    } else {
        let before = conffiles_in(all.drop_last());
        let line = all.last();
        if line.len() == 0 {
            before
        } else if is_space(line[0]) {
            if before.len() > 0 && words(line).len() > 0 {
                before.drop_last().push((before.last().0, before.last().1.push(words(line)[0])))
            } else {
                before
            }
        } else {
            before.push((trimmed(line), Seq::empty()))
        }
    }
}

/// The texts of packages and their files.
pub open spec fn file_texts(v: Seq<(String, Vec<String>)>) -> Seq<(Seq<char>, Seq<Seq<char>>)> {
    Seq::new(v.len(), |i: int| (v[i].0@, texts(v[i].1@)))
}

/// Parses the answer to [`CONFFILES_QUERY`].
pub fn parse_conffiles(output: &str) -> (r: Vec<(String, Vec<String>)>)
    ensures
        file_texts(r@) == conffiles_in(lines(output@)),
{
    let chars = chars_of(output);
    let rows = split_lines(chars.as_slice());
    let ghost all = lines(output@);
    let mut out: Vec<(String, Vec<String>)> = Vec::new();
    let mut i: usize = 0;
    assert(all.take(0) =~= Seq::<Seq<char>>::empty());
    assert(file_texts(out@) =~= Seq::<(Seq<char>, Seq<Seq<char>>)>::empty());
    while i < rows.len()
        invariant
            i <= rows@.len(),
            views(rows@) == all,
            file_texts(out@) == conffiles_in(all.take(i as int)),
        decreases rows@.len() - i,
    {
        assert(all.take(i + 1).drop_last() =~= all.take(i as int));
        let line = rows[i];
        assert(all.take(i + 1).last() == line@);
        let ghost before = file_texts(out@);
        if line.len() > 0 {
            if is_whitespace(line[0]) {
                let fields = split_words(line);
                assert(views(fields@).len() == fields@.len());
                if fields.len() > 0 {
                    assert(views(fields@)[0] == fields@[0]@);
                    assert(before.len() == out@.len());
                    if let Some((name, files)) = out.pop() {
                        let mut files = files;
                        let ghost files_before = texts(files@);
                        let path = string_of(fields[0]);
                        files.push(path);
                        assert(texts(files@) =~= files_before.push(path@));
                        assert(file_texts(out@) =~= before.drop_last());
                        let ghost rest = file_texts(out@);
                        out.push((name, files));
                        assert(file_texts(out@) =~= rest.push((name@, texts(files@))));
                    }
                }
            } else {
                let name = string_of(trim(line));
                let files: Vec<String> = Vec::new();
                assert(texts(files@) =~= Seq::<Seq<char>>::empty());
                out.push((name, files));
                assert(file_texts(out@) =~= before.push((name@, Seq::empty())));
            }
        }
        i = i + 1;
    }
    assert(all.take(i as int) =~= all);
    out
}

/// What some configuration files take on disk. One that is gone takes
/// nothing.
pub open spec fn config_total(facts: Seq<PathFact>) -> nat
    decreases facts.len(),
{
    if facts.len() == 0 {
        0
    } else {
        config_total(facts.drop_last()) + match facts.last() {
            PathFact::File { blocks, .. } => capped((blocks * 512) as nat) as nat,
            _ => 0,
        }
    }
}

/// On-disk bytes of a package's remaining configuration, given what is at
/// each of its paths.
pub fn conffile_bytes(facts: &Vec<PathFact>) -> (r: u64)
    ensures
        r == capped(config_total(facts@)),
{
    let mut sum: u64 = 0;
    let mut i: usize = 0;
    assert(facts@.take(0) =~= Seq::<PathFact>::empty());
    while i < facts.len()
        invariant
            i <= facts@.len(),
            sum == capped(config_total(facts@.take(i as int))),
        decreases facts@.len() - i,
    {
        assert(facts@.take(i + 1).drop_last() =~= facts@.take(i as int));
        if let PathFact::File { blocks, .. } = facts[i] {
            sum = capped_add(sum, block_bytes(blocks));
        }
        i = i + 1;
    }
    assert(facts@.take(i as int) =~= facts@);
    sum
}

/// A removed package and what is at each of its configuration files' paths.
#[derive(Debug, Clone, PartialEq, Eq)]
pub struct Leftover {
    pub name: String,
    pub files: Vec<PathFact>,
}

/// What is left of some removed packages: name and bytes, where that is
/// anything.
pub open spec fn residuals_of(all: Seq<Leftover>) -> Seq<(Seq<char>, u64)>
    decreases all.len(),
{
    if all.len() == 0 {
        Seq::empty()
    } else {
        let bytes = capped(config_total(all.last().files@));
        if bytes > 0 {
            residuals_of(all.drop_last()).push((all.last().name@, bytes))
        } else {
            residuals_of(all.drop_last())
        }
    }
}

/// The texts of what is left of packages.
pub open spec fn residual_texts(v: Seq<ResidualConfig>) -> Seq<(Seq<char>, u64)> {
    Seq::new(v.len(), |i: int| (v[i].name@, v[i].bytes))
}

/// The configuration that removed packages left behind. One whose files are
/// gone has nothing left to reclaim.
pub fn residual_config(all: &Vec<Leftover>) -> (r: Vec<ResidualConfig>)
    ensures
        residual_texts(r@) == residuals_of(all@),
{
    let mut out: Vec<ResidualConfig> = Vec::new();
    let mut i: usize = 0;
    assert(all@.take(0) =~= Seq::<Leftover>::empty());
    assert(residual_texts(out@) =~= Seq::<(Seq<char>, u64)>::empty());
    while i < all.len()
        invariant
            i <= all@.len(),
            residual_texts(out@) == residuals_of(all@.take(i as int)),
        decreases all@.len() - i,
    {
        assert(all@.take(i + 1).drop_last() =~= all@.take(i as int));
        let bytes: u64 = conffile_bytes(&all[i].files);
        if bytes > 0 {
            let ghost before = residual_texts(out@);
            let name = all[i].name.as_str().to_owned();
            out.push(ResidualConfig { name, bytes });
            assert(residual_texts(out@) =~= before.push((name@, bytes)));
        }
        i = i + 1;
    }
    assert(all@.take(i as int) =~= all@);
    out
}

// ---------------------------------------------------------------------------
// Removal
// ---------------------------------------------------------------------------

/// How many bytes one of APT's units is: powers of ten, as APT says.
pub open spec fn apt_unit(unit: Seq<char>) -> nat {
    if unit == "kB"@ {
        1000
    } else if unit == "MB"@ {
        1000000
    } else if unit == "GB"@ {
        1000000000
    } else if unit == "TB"@ {
        1000000000000
    } else {
        1
    }
}

/// The size at the front of one of APT's sentences; zero where there is no
/// number.
pub open spec fn apt_size(phrase: Seq<char>) -> u64 {
    let w = words(phrase);
    if w.len() == 0 {
        0
    } else {
        match scaled_number(
            without(w[0], ','),
            if w.len() > 1 {
                apt_unit(w[1])
            } else {
                1
            },
        ) {
            Some(n) => n,
            None => 0,
        }
    }
}

/// Parses APT's "512 MB disk space will be freed".
pub fn parse_size_phrase(phrase: &str) -> (r: u64)
    ensures
        r == apt_size(phrase@),
{
    let chars = chars_of(phrase);
    let fields = split_words(chars.as_slice());
    let ghost w = words(phrase@);
    assert(views(fields@) == w);
    assert(fields@.len() == w.len());
    if fields.len() == 0 {
        return 0;
    }
    assert(w[0] == fields@[0]@);
    let unit: u64 = if fields.len() > 1 {
        assert(w[1] == fields@[1]@);
        if is_text(fields[1], "kB") {
            1000
        } else if is_text(fields[1], "MB") {
            1000000
        } else if is_text(fields[1], "GB") {
            1000000000
        } else if is_text(fields[1], "TB") {
            1000000000000
        } else {
            1
        }
    } else {
        1
    };
    let digits = remove_char(fields[0], ',');
    match parse_scaled(digits.as_slice(), unit) {
        Some(n) => n,
        None => 0,
    }
}

/// A removal preview with its texts.
pub struct RemovalText {
    pub removing: Seq<Seq<char>>,
    pub freed_bytes: u64,
    pub installing: Seq<Seq<char>>,
}

/// What a preview says.
pub open spec fn removal_text(p: RemovalPreview) -> RemovalText {
    RemovalText {
        removing: texts(p.removing@),
        freed_bytes: p.freed_bytes,
        installing: texts(p.installing@),
    }
}

/// Some names with the first word of a text behind them, where it has one.
pub open spec fn and_first_word(names: Seq<Seq<char>>, rest: Seq<char>) -> Seq<Seq<char>> {
    if words(rest).len() > 0 {
        names.push(words(rest)[0])
    } else {
        names
    }
}

/// What the lines of a simulation say: each `Remv` removes a package, each
/// `Inst` installs one, and the closing sentence says what is freed.
pub open spec fn simulation_of(all: Seq<Seq<char>>) -> RemovalText
    decreases all.len(),
{
    if all.len() == 0 {
        RemovalText { removing: Seq::empty(), freed_bytes: 0, installing: Seq::empty() }
    } else {
        let before = simulation_of(all.drop_last());
        let line = trimmed(all.last());
        if let Some(rest) = after_prefix(line, "Remv "@) {
            RemovalText { removing: and_first_word(before.removing, rest), ..before }
        } else if let Some(rest) = after_prefix(line, "Inst "@) {
            RemovalText { installing: and_first_word(before.installing, rest), ..before }
        } else if let Some(rest) = after_prefix(line, "After this operation, "@) {
            if text_at(rest, "will be freed"@) >= 0 {
                RemovalText { freed_bytes: apt_size(rest), ..before }
            } else {
                before
            }
        } else {
            before
        }
    }
}

/// Adds the first word of a text to some names, where it has one.
pub(crate) fn push_first_word(names: &mut Vec<String>, rest: &[char])
    ensures
        texts(final(names)@) == and_first_word(texts(old(names)@), rest@),
{
    let fields = split_words(rest);
    assert(views(fields@).len() == fields@.len());
    if fields.len() > 0 {
        assert(views(fields@)[0] == fields@[0]@);
        let ghost before = texts(names@);
        let name = string_of(fields[0]);
        names.push(name);
        assert(texts(names@) =~= before.push(name@));
    }
}

/// Parses the output of a simulated removal. The simulation is the authority
/// on what a removal does.
pub fn parse_removal_simulation(output: &str) -> (r: RemovalPreview)
    ensures
        removal_text(r) == simulation_of(lines(output@)),
{
    let chars = chars_of(output);
    let rows = split_lines(chars.as_slice());
    let ghost all = lines(output@);
    let mut removing: Vec<String> = Vec::new();
    let mut installing: Vec<String> = Vec::new();
    let mut freed_bytes: u64 = 0;
    let mut i: usize = 0;
    assert(all.take(0) =~= Seq::<Seq<char>>::empty());
    assert(texts(removing@) =~= Seq::<Seq<char>>::empty());
    assert(texts(installing@) =~= Seq::<Seq<char>>::empty());
    while i < rows.len()
        invariant
            i <= rows@.len(),
            views(rows@) == all,
            texts(removing@) == simulation_of(all.take(i as int)).removing,
            texts(installing@) == simulation_of(all.take(i as int)).installing,
            freed_bytes == simulation_of(all.take(i as int)).freed_bytes,
        decreases rows@.len() - i,
    {
        assert(all.take(i + 1).drop_last() =~= all.take(i as int));
        assert(all.take(i + 1).last() == rows@[i as int]@);
        let line = trim(rows[i]);
        if let Some(rest) = strip_prefix(line, "Remv ") {
            push_first_word(&mut removing, rest);
        } else if let Some(rest) = strip_prefix(line, "Inst ") {
            push_first_word(&mut installing, rest);
        } else if let Some(rest) = strip_prefix(line, "After this operation, ") {
            if find_text(rest, "will be freed").is_some() {
                let phrase = string_of(rest);
                freed_bytes = parse_size_phrase(phrase.as_str());
            }
        }
        i = i + 1;
    }
    assert(all.take(i as int) =~= all);
    RemovalPreview { removing, freed_bytes, installing }
}

/// dpkg and APT.
#[derive(Debug, Clone, Copy)]
pub struct DpkgBackend;

impl DpkgBackend {
    /// The backend.
    pub fn new() -> (r: Self)
        ensures
            r == DpkgBackend,
    {
        DpkgBackend
    }

    /// The command that lists the state of every package.
    pub fn residual_query(&self) -> (r: Query)
        ensures
            r.program@ == "dpkg-query"@,
            texts(r.args@) == seq!["-W"@, RESIDUAL_QUERY@],
    {
        let args = vec!["-W", RESIDUAL_QUERY];
        let owned = owned_args(&args);
        assert(texts(owned@) =~= seq!["-W"@, RESIDUAL_QUERY@]);
        Query { program: "dpkg-query", args: owned }
    }

    /// The command that lists the configuration files of some packages, all
    /// in one go. None where there are no packages.
    pub fn conffiles_query(&self, names: &Vec<String>) -> (r: Option<Query>)
        ensures
            match r {
                Some(q) => names@.len() > 0 && q.program@ == "dpkg-query"@ && texts(q.args@) == seq![
                    "-W"@,
                    CONFFILES_QUERY@,
                ] + texts(names@),
                None => names@.len() == 0,
            },
    {
        let args = vec!["-W", CONFFILES_QUERY];
        assert(Seq::new(args@.len(), |i: int| args@[i]@) =~= seq!["-W"@, CONFFILES_QUERY@]);
        with_names("dpkg-query", &args, names)
    }
}

impl Default for DpkgBackend {
    fn default() -> (r: Self)
        ensures
            r == DpkgBackend,
    {
        DpkgBackend::new()
    }
}

impl Backend for DpkgBackend {
    open spec fn who(&self) -> Manager {
        Manager::Apt
    }

    open spec fn listing(&self) -> (Seq<char>, Seq<Seq<char>>) {
        ("dpkg-query"@, seq!["-W"@, INSTALLED_QUERY@])
    }

    open spec fn listed(&self, output: Seq<char>) -> Seq<PackageText> {
        installed_lines(lines(output))
    }

    open spec fn simulation(&self) -> (Seq<char>, Seq<Seq<char>>) {
        ("apt-get"@, seq!["-s"@, "remove"@])
    }

    open spec fn simulated(&self, output: Seq<char>, r: RemovalPreview) -> bool {
        removal_text(r) == simulation_of(lines(output))
    }

    open spec fn needs(&self) -> Capability {
        Capability::Apt
    }

    open spec fn left_behind(&self, all: Seq<Leftover>) -> Seq<(Seq<char>, u64)> {
        residuals_of(all)
    }

    /// A package without a file list is an error.
    open spec fn measures(
        &self,
        id: Seq<char>,
        facts: Option<Seq<PathFact>>,
        r: Result<Measured>,
    ) -> bool {
        match facts {
            Some(f) => r == Ok::<Measured, AppError>(measured_of(f)),
            None => r matches Err(e) && lacks_list(e, id),
        }
    }

    fn manager(&self) -> Manager {
        Manager::Apt
    }

    fn available(&self, caps: &Capabilities) -> bool {
        caps.has(Capability::Apt)
    }

    fn residual_config(&self, all: &Vec<Leftover>) -> Vec<ResidualConfig> {
        residual_config(all)
    }

    fn measure(&self, id: &str, facts: Option<&Vec<PathFact>>) -> Result<Measured> {
        match facts {
            Some(f) => Ok(measure_paths(f)),
            None => Err(no_file_list(id)),
        }
    }

    fn installed_query(&self) -> Query {
        let args = vec!["-W", INSTALLED_QUERY];
        let owned = owned_args(&args);
        assert(texts(owned@) =~= seq!["-W"@, INSTALLED_QUERY@]);
        Query { program: "dpkg-query", args: owned }
    }

    fn installed(&self, output: &str) -> Vec<Package> {
        parse_installed(output)
    }

    fn removal_query(&self, names: &Vec<String>) -> Option<Query> {
        let args = vec!["-s", "remove"];
        assert(Seq::new(args@.len(), |i: int| args@[i]@) =~= seq!["-s"@, "remove"@]);
        with_names("apt-get", &args, names)
    }

    fn removal_preview(&self, output: Option<&str>) -> RemovalPreview {
        match output {
            Some(t) => parse_removal_simulation(t),
            None => RemovalPreview::default(),
        }
    }
}

/// Every listed package has the identity that its name and architecture give
/// it.
pub proof fn law_listed_identities_are_derived(all: Seq<Seq<char>>, i: int)
    requires
        0 <= i < installed_lines(all).len(),
    ensures
        installed_lines(all)[i].id == super::identity_of(
            installed_lines(all)[i].name,
            installed_lines(all)[i].arch,
        ),
    decreases all.len(),
{
    if i < installed_lines(all.drop_last()).len() {
        law_listed_identities_are_derived(all.drop_last(), i);
    }
}

/// Each package of a kernel adds its recorded size to the figure.
pub proof fn law_every_package_adds_its_bytes(s: Seq<Package>, p: Package)
    ensures
        recorded_total(s.push(p)) == recorded_total(s) + p.recorded_bytes,
        recorded_total(Seq::<Package>::empty()) == 0,
{
    assert(s.push(p).drop_last() =~= s);
}

/// The group of a kernel holds every installed package of that kernel, and
/// no other.
pub proof fn law_a_group_holds_a_kernels_packages(packages: Seq<Package>, base: Seq<char>)
    ensures
        forall|k: int|
            0 <= k < members(packages, base).len() ==> packages.contains(
                #[trigger] members(packages, base)[k],
            ) && kernel_base(members(packages, base)[k]) == Some(base),
        forall|p: Package|
            packages.contains(p) && #[trigger] kernel_base(p) == Some(base) ==> members(
                packages,
                base,
            ).contains(p),
    decreases packages.len(),
{
    if packages.len() > 0 {
        let rest = packages.drop_last();
        let last = packages.last();
        law_a_group_holds_a_kernels_packages(rest, base);
        let m = members(packages, base);
        let before = members(rest, base);
        assert forall|k: int| 0 <= k < m.len() implies packages.contains(#[trigger] m[k])
            && kernel_base(m[k]) == Some(base) by {
            if k < before.len() {
                assert(m[k] == before[k]);
                let j = choose|j: int| 0 <= j < rest.len() && rest[j] == before[k];
                assert(packages[j] == before[k]);
            } else {
                assert(packages[packages.len() - 1] == m[k]);
            }
        }
        assert forall|p: Package| packages.contains(p) && #[trigger] kernel_base(p) == Some(
            base,
        ) implies m.contains(p) by {
            let j = choose|j: int| 0 <= j < packages.len() && packages[j] == p;
            if j < rest.len() {
                assert(rest[j] == p);
                assert(before.contains(p));
                let i = choose|i: int| 0 <= i < before.len() && before[i] == p;
                assert(m[i] == p);
            } else {
                assert(m[m.len() - 1] == p);
            }
        }
    }
}

proof fn lemma_kept_are_sets(
    sets: Seq<KernelSet>,
    newest: Seq<char>,
    running: Option<Seq<char>>,
    x: KernelSet,
)
    ensures
        kept(sets, newest, running).contains(x) <==> sets.contains(x) && may_go(
            x.version.0@,
            newest,
            running,
        ),
    decreases sets.len(),
{
    if sets.len() > 0 {
        let rest = sets.drop_last();
        lemma_kept_are_sets(rest, newest, running, x);
        let before = kept(rest, newest, running);
        let all = kept(sets, newest, running);
        if sets.contains(x) {
            let j = choose|j: int| 0 <= j < sets.len() && sets[j] == x;
            if j < rest.len() {
                assert(rest[j] == x);
            }
        }
        if rest.contains(x) {
            let j = choose|j: int| 0 <= j < rest.len() && rest[j] == x;
            assert(sets[j] == x);
        }
        if before.contains(x) {
            let j = choose|j: int| 0 <= j < before.len() && before[j] == x;
            assert(all[j] == x);
        }
        if all.contains(x) {
            let j = choose|j: int| 0 <= j < all.len() && all[j] == x;
            if j < before.len() {
                assert(before[j] == x);
            } else {
                assert(sets[sets.len() - 1] == x);
            }
        }
        if may_go(sets.last().version.0@, newest, running) {
            assert(all[all.len() - 1] == sets.last());
        }
    }
}

proof fn lemma_in_order_contains(s: Seq<KernelSet>, x: KernelSet)
    ensures
        in_order(s).contains(x) <==> s.contains(x),
{
    crate::order::law_sorting_keeps_every_element(s);
    s.to_multiset_ensures();
    in_order(s).to_multiset_ensures();
    assert(in_order(s).to_multiset().count(x) == s.to_multiset().count(x));
}

/// What is offered is among the kernels that are installed.
pub proof fn law_offered_kernels_are_among_the_groups(
    sets: Seq<KernelSet>,
    running: Option<Seq<char>>,
    r: Seq<KernelSet>,
    i: int,
)
    requires
        offers_of(sets, running, r),
        0 <= i < r.len(),
    ensures
        exists|k: int| 0 <= k < sets.len() && sets[k] == r[i],
{
    let newest = sets[newest_at(sets)].version.0@;
    assert(r.contains(r[i]));
    lemma_in_order_contains(kept(sets, newest, running), r[i]);
    lemma_kept_are_sets(sets, newest, running, r[i]);
}

/// Every kernel that is older than the newest and than the running one, and
/// shares its numbers with neither, is offered: nothing that may go is kept
/// back.
pub proof fn law_every_superseded_kernel_is_offered(
    sets: Seq<KernelSet>,
    running: Option<Seq<char>>,
    r: Seq<KernelSet>,
    k: int,
)
    requires
        offers_of(sets, running, r),
        0 <= k < sets.len(),
        older(sets[k].version.0@, sets[newest_at(sets)].version.0@),
        base_of(sets[k].version.0@) != base_of(sets[newest_at(sets)].version.0@),
        running matches Some(v) ==> older(sets[k].version.0@, v) && base_of(sets[k].version.0@)
            != base_of(v),
    ensures
        r.contains(sets[k]),
{
    let newest = sets[newest_at(sets)].version.0@;
    assert(sets.contains(sets[k]));
    lemma_kept_are_sets(sets, newest, running, sets[k]);
    lemma_in_order_contains(kept(sets, newest, running), sets[k]);
}

/// An installed package is read from its own columns: name, architecture,
/// version, size in kibibytes, state, whether it was asked for, and summary.
/// Only what is fully installed counts.
pub proof fn law_installed_packages_are_read_from_their_columns(line: Seq<char>)
    ensures
        ({
            let f = pieces(line, '\t');
            match installed_line(line) {
                Some(p) => {
                    &&& f.len() >= 5
                    &&& p.name == trimmed(f[0]) && p.name.len() > 0
                    &&& p.arch == trimmed(f[1])
                    &&& p.version == trimmed(f[2])
                    &&& number_or_zero(trimmed(f[3])) * 1024 <= u64::MAX ==> p.recorded_bytes
                        == number_or_zero(trimmed(f[3])) * 1024
                    &&& trimmed(f[4]) == "installed"@
                    &&& p.explicit == (f.len() > 5 && trimmed(f[5]) == "install"@)
                    &&& p.manager == Manager::Apt
                    &&& p.measured is None
                },
                None => f.len() < 5 || trimmed(f[4]) != "installed"@ || trimmed(f[0]).len() == 0,
            }
        }),
{
}

/// Each line that lists an installed package adds it, and no other line does.
pub proof fn law_every_installed_package_is_listed(all: Seq<Seq<char>>, line: Seq<char>)
    ensures
        installed_line(line) matches Some(p) ==> installed_lines(all.push(line))
            == installed_lines(all).push(p),
        installed_line(line) is None ==> installed_lines(all.push(line)) == installed_lines(all),
        residual_line(line) matches Some(n) ==> residual_lines(all.push(line)) == residual_lines(
            all,
        ).push(n),
        residual_line(line) is None ==> residual_lines(all.push(line)) == residual_lines(all),
        listed_path(line) matches Some(p) ==> listed_paths(all.push(line)) == listed_paths(
            all,
        ).push(p),
        listed_path(line) is None ==> listed_paths(all.push(line)) == listed_paths(all),
{
    assert(all.push(line).drop_last() =~= all);
}

/// A package that left its configuration behind is one whose state starts with
/// `rc`; a listed path is an absolute one other than the root.
pub proof fn law_what_is_left_and_what_is_listed(line: Seq<char>)
    ensures
        residual_line(line) matches Some(n) ==> pieces(line, '\t').len() >= 2 && n == trimmed(
            pieces(line, '\t')[0],
        ) && begins(trimmed(pieces(line, '\t')[1]), "rc"@),
        listed_path(line) matches Some(p) ==> p == trimmed(line) && p.len() > 0 && p[0] == '/' && p
            != "/."@,
{
    reveal_strlit("/");
    if let Some(p) = listed_path(line) {
        assert(p.take(1)[0] == '/');
    }
}

/// What a removed package left behind is the blocks of its configuration
/// files, and only where they take anything is it reported, under its name.
pub proof fn law_leftovers_are_their_files(
    all: Seq<Leftover>,
    l: Leftover,
    facts: Seq<PathFact>,
    f: PathFact,
)
    ensures
        f matches PathFact::File { blocks, .. } ==> blocks * 512 <= u64::MAX ==> config_total(
            facts.push(f),
        ) == config_total(facts) + blocks * 512,
        !(f is File) ==> config_total(facts.push(f)) == config_total(facts),
        config_total(Seq::<PathFact>::empty()) == 0,
        config_total(l.files@) == 0 ==> residuals_of(all.push(l)) == residuals_of(all),
        config_total(l.files@) > 0 ==> {
            &&& residuals_of(all.push(l)).len() == residuals_of(all).len() + 1
            &&& residuals_of(all.push(l)).drop_last() == residuals_of(all)
            &&& residuals_of(all.push(l)).last().0 == l.name@
            &&& config_total(l.files@) <= u64::MAX ==> residuals_of(all.push(l)).last().1
                == config_total(l.files@)
        },
{
    assert(facts.push(f).drop_last() =~= facts);
    assert(all.push(l).drop_last() =~= all);
    let bytes = capped(config_total(l.files@));
    assert(residuals_of(all).push((l.name@, bytes)).drop_last() =~= residuals_of(all));
}

/// A package's configuration files are the indented lines below its name, each
/// by its first word.
pub proof fn law_configuration_files_stand_below_their_package(
    all: Seq<Seq<char>>,
    line: Seq<char>,
)
    ensures
        line.len() == 0 ==> conffiles_in(all.push(line)) == conffiles_in(all),
        line.len() > 0 && !is_space(line[0]) ==> conffiles_in(all.push(line)) == conffiles_in(
            all,
        ).push((trimmed(line), Seq::<Seq<char>>::empty())),
        line.len() > 0 && is_space(line[0]) && words(line).len() > 0 && conffiles_in(all).len() > 0
            ==> {
            &&& conffiles_in(all.push(line)).len() == conffiles_in(all).len()
            &&& conffiles_in(all.push(line)).last().0 == conffiles_in(all).last().0
            &&& conffiles_in(all.push(line)).last().1 == conffiles_in(all).last().1.push(
                words(line)[0],
            )
            &&& conffiles_in(all.push(line)).drop_last() == conffiles_in(all).drop_last()
        },
{
    assert(all.push(line).drop_last() =~= all);
    let before = conffiles_in(all);
    if before.len() > 0 && words(line).len() > 0 {
        assert(before.drop_last().push(
            (before.last().0, before.last().1.push(words(line)[0])),
        ).drop_last() =~= before.drop_last());
    }
}

/// APT counts in thousands.
pub proof fn law_apt_counts_in_thousands()
    ensures
        apt_unit("B"@) == 1,
        apt_unit("kB"@) == 1000 * apt_unit("B"@),
        apt_unit("MB"@) == 1000 * apt_unit("kB"@),
        apt_unit("GB"@) == 1000 * apt_unit("MB"@),
        apt_unit("TB"@) == 1000 * apt_unit("GB"@),
{
    reveal_strlit("B");
    reveal_strlit("kB");
    reveal_strlit("MB");
    reveal_strlit("GB");
    reveal_strlit("TB");
    assert("kB"@[0] == 'k' && "MB"@[0] == 'M' && "GB"@[0] == 'G' && "TB"@[0] == 'T');
    assert("B"@.len() == 1 && "kB"@.len() == 2 && "MB"@.len() == 2 && "GB"@.len() == 2
        && "TB"@.len() == 2);
}

/// Each line of a simulated removal says one thing: a package that goes, a
/// package that comes, or what will be freed. Nothing else changes with it,
/// and no other line changes anything.
pub proof fn law_each_line_of_a_simulation_says_one_thing(
    all: Seq<Seq<char>>,
    line: Seq<char>,
    rest: Seq<char>,
)
    requires
        words(rest).len() > 0,
    ensures
        ({
            let before = simulation_of(all);
            let after = simulation_of(all.push(line));
            &&& trimmed(line) == "Remv "@ + rest ==> after == (RemovalText {
                removing: before.removing.push(words(rest)[0]),
                ..before
            })
            &&& trimmed(line) == "Inst "@ + rest ==> after == (RemovalText {
                installing: before.installing.push(words(rest)[0]),
                ..before
            })
            &&& trimmed(line) == "After this operation, "@ + rest && text_at(
                rest,
                "will be freed"@,
            ) >= 0 ==> after == (RemovalText { freed_bytes: apt_size(rest), ..before })
            &&& trimmed(line) == "After this operation, "@ + rest && text_at(
                rest,
                "will be freed"@,
            ) < 0 ==> after == before
            &&& !begins(trimmed(line), "Remv "@) && !begins(trimmed(line), "Inst "@) && !begins(
                trimmed(line),
                "After this operation, "@,
            ) ==> after == before
        }),
{
    assert(all.push(line).drop_last() =~= all);
    reveal_strlit("Remv ");
    reveal_strlit("Inst ");
    reveal_strlit("After this operation, ");
    lemma_after("Remv "@, rest);
    lemma_after("Inst "@, rest);
    lemma_after("After this operation, "@, rest);
    let t = trimmed(line);
    if t == "Inst "@ + rest {
        assert(t[0] == 'I');
        assert(!begins(t, "Remv "@)) by {
            if begins(t, "Remv "@) {
                assert(t.take(5)[0] == 'R');
            }
        }
    }
    if t == "After this operation, "@ + rest {
        assert(t[0] == 'A');
        assert(!begins(t, "Remv "@)) by {
            if begins(t, "Remv "@) {
                assert(t.take(5)[0] == 'R');
            }
        }
        assert(!begins(t, "Inst "@)) by {
            if begins(t, "Inst "@) {
                assert(t.take(5)[0] == 'I');
            }
        }
    }
}

proof fn lemma_after(prefix: Seq<char>, rest: Seq<char>)
    ensures
        after_prefix(prefix + rest, prefix) == Some(rest),
        begins(prefix + rest, prefix),
{
    let t = prefix + rest;
    assert(t.take(prefix.len() as int) =~= prefix);
    assert(t.skip(prefix.len() as int) =~= rest);
}

/// The view of a simulated removal keeps what goes, what comes and what is
/// freed.
pub proof fn law_a_removal_is_what_its_view_says(p: RemovalPreview)
    ensures
        removal_text(p).freed_bytes == p.freed_bytes,
        removal_text(p).removing.len() == p.removing@.len(),
        removal_text(p).installing.len() == p.installing@.len(),
        forall|i: int|
            0 <= i < p.removing@.len() ==> #[trigger] removal_text(p).removing[i]
                == p.removing@[i]@,
        forall|i: int|
            0 <= i < p.installing@.len() ==> #[trigger] removal_text(p).installing[i]
                == p.installing@[i]@,
{
}

/// A kernel's packages are known by their names: an image, modules, headers or
/// one of their kin, with a version behind that starts with a digit. No other
/// package is a kernel's.
pub proof fn law_kernel_packages_are_known_by_name(v: Seq<char>, name: Seq<char>)
    ensures
        v.len() > 0 && is_digit(v[0]) ==> {
            &&& version_in("linux-image-"@ + v) == Some(v)
            &&& version_in("linux-image-unsigned-"@ + v) == Some(v)
            &&& version_in("linux-modules-"@ + v) == Some(v)
            &&& version_in("linux-modules-extra-"@ + v) == Some(v)
            &&& version_in("linux-headers-"@ + v) == Some(v)
            &&& version_in("linux-tools-"@ + v) == Some(v)
            &&& version_in("linux-cloud-tools-"@ + v) == Some(v)
            &&& version_in("linux-buildinfo-"@ + v) == Some(v)
        },
        version_in(name) matches Some(w) ==> w.len() > 0 && is_digit(w[0]) && begins(
            name,
            "linux-"@,
        ),
{
    reveal_strlit("linux-");
    reveal_strlit("linux-modules-extra-");
    reveal_strlit("linux-headers-");
    reveal_strlit("linux-modules-");
    reveal_strlit("linux-image-unsigned-");
    reveal_strlit("linux-image-");
    reveal_strlit("linux-tools-");
    reveal_strlit("linux-cloud-tools-");
    reveal_strlit("linux-buildinfo-");
    if v.len() > 0 && is_digit(v[0]) {
        lemma_version(v, 0);
        lemma_version(v, 1);
        lemma_version(v, 2);
        lemma_version(v, 3);
        lemma_version(v, 4);
        lemma_version(v, 5);
        lemma_version(v, 6);
        lemma_version(v, 7);
    }
    if version_in(name) is Some {
        let k = lemma_version_has_prefix(kernel_prefixes(), name);
        let p = kernel_prefixes()[k];
        assert(p.take(6) =~= "linux-"@);
        assert(name.take(6) =~= name.take(p.len() as int).take(6));
    }
}

proof fn lemma_version_has_prefix(prefixes: Seq<Seq<char>>, name: Seq<char>) -> (k: int)
    requires
        version_after(prefixes, name) is Some,
    ensures
        0 <= k < prefixes.len(),
        begins(name, prefixes[k]),
        (version_after(prefixes, name)->0).len() > 0,
        is_digit((version_after(prefixes, name)->0)[0]),
    decreases prefixes.len(),
{
    if after_prefix(name, prefixes[0]) is Some {
        0
    } else {
        lemma_version_has_prefix(prefixes.skip(1), name) + 1
    }
}

proof fn lemma_skip_prefixes(prefixes: Seq<Seq<char>>, name: Seq<char>, k: int, v: Seq<char>)
    requires
        0 <= k < prefixes.len(),
        name == prefixes[k] + v,
        v.len() > 0,
        is_digit(v[0]),
        forall|j: int| 0 <= j < k ==> !begins(name, #[trigger] prefixes[j]),
    ensures
        version_after(prefixes, name) == Some(v),
    decreases k,
{
    lemma_after(prefixes[k], v);
    if k > 0 {
        let rest = prefixes.skip(1);
        assert forall|j: int| 0 <= j < k - 1 implies !begins(name, #[trigger] rest[j]) by {
            assert(rest[j] == prefixes[j + 1]);
        }
        assert(!begins(name, prefixes[0]));
        lemma_skip_prefixes(rest, name, k - 1, v);
    }
}

proof fn lemma_version(v: Seq<char>, k: int)
    requires
        0 <= k < 8,
        v.len() > 0,
        is_digit(v[0]),
    ensures
        version_in(kernel_prefixes()[k] + v) == Some(v),
{
    reveal_strlit("linux-modules-extra-");
    reveal_strlit("linux-headers-");
    reveal_strlit("linux-modules-");
    reveal_strlit("linux-image-unsigned-");
    reveal_strlit("linux-image-");
    reveal_strlit("linux-tools-");
    reveal_strlit("linux-cloud-tools-");
    reveal_strlit("linux-buildinfo-");
    let all = kernel_prefixes();
    let name = all[k] + v;
    assert forall|j: int| 0 <= j < k implies !begins(name, #[trigger] all[j]) by {
        let p = all[j];
        let q = all[k];
        if begins(name, p) {
            assert forall|i: int| 0 <= i < p.len() implies name[i] == p[i] by {
                assert(name.take(p.len() as int)[i] == p[i]);
            }
            let at = lemma_prefixes_part(j, k);
            if at < q.len() {
                assert(name[at] == q[at]);
                assert(name[at] == p[at]);
            } else {
                assert(name[at] == v[0]);
                assert(name[at] == p[at]);
            }
        }
    }
    lemma_skip_prefixes(all, name, k, v);
}

/// Where an earlier prefix parts from a later one: at a character of both, or
/// at one that is no digit and stands where the later one has ended.
proof fn lemma_prefixes_part(j: int, k: int) -> (at: int)
    requires
        0 <= j < k < 8,
    ensures
        0 <= at < kernel_prefixes()[j].len(),
        at <= kernel_prefixes()[k].len(),
        at < kernel_prefixes()[k].len() ==> kernel_prefixes()[j][at] != kernel_prefixes()[k][at],
        at == kernel_prefixes()[k].len() ==> !is_digit(kernel_prefixes()[j][at]),
{
    reveal_strlit("linux-modules-extra-");
    reveal_strlit("linux-headers-");
    reveal_strlit("linux-modules-");
    reveal_strlit("linux-image-unsigned-");
    reveal_strlit("linux-image-");
    reveal_strlit("linux-tools-");
    reveal_strlit("linux-cloud-tools-");
    reveal_strlit("linux-buildinfo-");
    if j == 0 && k == 2 {
        14
    } else if j == 3 && k == 4 {
        12
    } else {
        6
    }
}

/// The numbers of a kernel come before its flavour: two numbers that belong to
/// one kernel are its base whatever the flavour behind them, and the flavour
/// is what stands behind.
pub proof fn law_a_kernels_numbers_come_before_its_flavour(
    version: Seq<char>,
    abi: Seq<char>,
    flavour: Seq<char>,
)
    requires
        is_numeric_piece(version),
        is_numeric_piece(abi),
        flavour.len() > 0,
        !flavour.contains('-'),
        !is_digit(flavour[0]) && flavour[0] != '.',
    ensures
        base_of(version.push('-') + abi) == version.push('-') + abi,
        base_of(version.push('-') + (abi.push('-') + flavour)) == version.push('-') + abi,
        flavour_of(version.push('-') + (abi.push('-') + flavour)) == Some(flavour),
        flavour_of(version.push('-') + abi) is None,
{
    reveal_strlit("-");
    lemma_numeric_has_no_dash(version);
    lemma_numeric_has_no_dash(abi);
    crate::paths::lemma_pieces_single(version, '-');
    crate::paths::lemma_pieces_single(abi, '-');
    crate::paths::lemma_pieces_single(flavour, '-');
    let short = version.push('-') + abi;
    let tail = abi.push('-') + flavour;
    let long = version.push('-') + tail;
    crate::paths::lemma_pieces_join(version, '-', abi);
    crate::paths::lemma_pieces_join(abi, '-', flavour);
    crate::paths::lemma_pieces_join(version, '-', tail);
    let p = seq![version, abi];
    let q = seq![version, abi, flavour];
    assert(pieces(short, '-') =~= p);
    assert(pieces(long, '-') =~= q);
    assert(!is_numeric_piece(flavour)) by {
        if is_numeric_piece(flavour) {
            assert(is_digit(flavour[0]) || flavour[0] == '.');
        }
    }
    assert(p.skip(1).skip(1) =~= Seq::<Seq<char>>::empty());
    assert(p.skip(1)[0] == abi);
    assert(numeric_front(p.skip(1).skip(1)) =~= Seq::<Seq<char>>::empty());
    assert(numeric_front(p.skip(1)) =~= seq![abi]);
    assert(numeric_front(p) =~= p);
    assert(q.skip(1)[0] == abi && q.skip(1).skip(1)[0] == flavour);
    assert(numeric_front(q.skip(1).skip(1)) =~= Seq::<Seq<char>>::empty());
    assert(numeric_front(q.skip(1)) =~= seq![abi]);
    assert(numeric_front(q) =~= p);
    assert(p.drop_last() =~= seq![version]);
    assert(joined_with(seq![version], "-"@) == version);
    assert(joined_with(p, "-"@) =~= short);
    assert(long.take(short.len() as int) =~= short);
    let rest = long.skip(short.len() as int);
    assert(rest =~= "-"@ + flavour);
    assert(rest.take(1) =~= "-"@);
    assert(rest.skip(1) =~= flavour);
    assert(short.take(short.len() as int) =~= short);
    assert(short.skip(short.len() as int) =~= Seq::<char>::empty());
}

proof fn lemma_numeric_has_no_dash(s: Seq<char>)
    requires
        is_numeric_piece(s),
    ensures
        !s.contains('-'),
{
    if s.contains('-') {
        let i = choose|i: int| 0 <= i < s.len() && s[i] == '-';
        assert(is_digit(s[i]) || s[i] == '.');
    }
}

proof fn lemma_numbers_concat(p: Seq<Seq<char>>, q: Seq<Seq<char>>)
    ensures
        numbers_of(p + q) == numbers_of(p) + numbers_of(q),
    decreases q.len(),
{
    if q.len() == 0 {
        assert(p + q =~= p);
        assert(numbers_of(p) + numbers_of(q) =~= numbers_of(p));
    } else {
        assert((p + q).drop_last() =~= p + q.drop_last());
        lemma_numbers_concat(p, q.drop_last());
        assert(numbers_of(p + q) =~= numbers_of(p) + numbers_of(q));
    }
}

proof fn lemma_numbers_behind(s: Seq<u64>, a: u64, b: u64)
    ensures
        numbers_less(s.push(a), s.push(b)) == (a < b),
    decreases s.len(),
{
    if s.len() == 0 {
        assert(s.push(a)[0] == a && s.push(b)[0] == b);
        assert(s.push(a).skip(1) =~= Seq::<u64>::empty());
        assert(s.push(b).skip(1) =~= Seq::<u64>::empty());
        assert(!numbers_less(Seq::<u64>::empty(), Seq::<u64>::empty()));
    } else {
        assert(s.push(a)[0] == s[0] && s.push(b)[0] == s[0]);
        assert(s.push(a).skip(1) =~= s.skip(1).push(a));
        assert(s.push(b).skip(1) =~= s.skip(1).push(b));
        lemma_numbers_behind(s.skip(1), a, b);
    }
}

/// Versions are compared by their numbers and not by their spelling: of two
/// that differ in their last number the one with the lower number is older.
pub proof fn law_versions_are_compared_by_number(front: Seq<char>, mark: char, a: u64, b: u64)
    requires
        !is_digit(mark),
    ensures
        older(front.push(mark) + decimal(a as nat), front.push(mark) + decimal(b as nat)) == (a
            < b),
        older(front, front.push(mark) + decimal(a as nat)),
{
    lemma_last_number(front, mark, a);
    lemma_last_number(front, mark, b);
    lemma_numbers_behind(segments_of(front), a, b);
    lemma_shorter_is_less(segments_of(front), a);
}

proof fn lemma_shorter_is_less(s: Seq<u64>, a: u64)
    ensures
        numbers_less(s, s.push(a)),
    decreases s.len(),
{
    if s.len() > 0 {
        assert(s.push(a)[0] == s[0]);
        assert(s.push(a).skip(1) =~= s.skip(1).push(a));
        lemma_shorter_is_less(s.skip(1), a);
    }
}

proof fn lemma_last_number(front: Seq<char>, mark: char, n: u64)
    requires
        !is_digit(mark),
    ensures
        segments_of(front.push(mark) + decimal(n as nat)) == segments_of(front).push(n),
{
    let sep = |c: char| !is_digit(c);
    let d = decimal(n as nat);
    crate::text::law_decimal_reads_back(n as nat);
    assert forall|i: int| 0 <= i < d.len() implies !sep(#[trigger] d[i]) by {
        assert(is_digit(d[i]));
    }
    crate::text::lemma_split_single(d, sep);
    crate::text::lemma_split_join(front, mark, d, sep);
    lemma_numbers_concat(split_where(front, sep), seq![d]);
    assert(seq![d].drop_last() =~= Seq::<Seq<char>>::empty());
    assert(numbers_of(Seq::<Seq<char>>::empty()) =~= Seq::<u64>::empty());
    assert(seq![d].last() == d);
    assert(number(d) == Some(n));
    assert(numbers_of(seq![d]) =~= seq![n]);
    assert(segments_of(front) + seq![n] =~= segments_of(front).push(n));
}

/// What a kernel frees is what its packages record together; the running one
/// is what the kernel says of itself, without the white space around it.
pub proof fn law_a_kernel_frees_what_its_packages_record(
    set: KernelSet,
    bytes: u64,
    text: Option<&str>,
    running: Option<KernelVersion>,
)
    requires
        call_ensures(KernelSet::bytes, (&set,), bytes),
        call_ensures(running_kernel, (text,), running),
    ensures
        recorded_total(set.packages@) <= u64::MAX ==> bytes == recorded_total(set.packages@),
        text is None ==> running is None,
        text matches Some(t) ==> (running matches Some(v) && v.0@ == trimmed(t@)),
{
}

/// A package's list of files is the one under its whole identity, or else the
/// one under its name, which is what stands before the colon.
pub proof fn law_a_file_list_is_found_by_identity_first(
    id: &str,
    name: &str,
    qualified: bool,
    plain: bool,
    file: Option<String>,
    short: String,
)
    requires
        call_ensures(list_file, (id, name, qualified, plain), file),
        call_ensures(name_of, (id,), short),
    ensures
        qualified ==> opt_text(file) == Some(id@ + ".list"@),
        !qualified && plain ==> opt_text(file) == Some(name@ + ".list"@),
        !qualified && !plain ==> file is None,
        !id@.contains(':') ==> short@ == id@,
        parted(id@, ':') matches Some((front, _)) ==> short@ == front,
{
    crate::text::lemma_first_at(id@, ':');
    if !id@.contains(':') {
        let at = crate::text::first_at(id@, ':');
        if at < id@.len() {
            assert(id@.contains(id@[at]));
        }
    }
}

/// A kernel that is installed has a package at least: one that spells its
/// version.
pub proof fn law_every_group_has_a_package(packages: Seq<Package>, base: Seq<char>)
    requires
        spelling(packages, base) is Some,
    ensures
        members(packages, base).len() > 0,
    decreases packages.len(),
{
    if kernel_base(packages.last()) != Some(base) {
        law_every_group_has_a_package(packages.drop_last(), base);
    }
}

/// A kernel is called by the longest of the versions that its packages spell,
/// which has the flavour that a headers package may lack.
pub proof fn law_a_kernel_is_called_by_its_longest_spelling(
    packages: Seq<Package>,
    base: Seq<char>,
    v: Seq<char>,
)
    requires
        spelling(packages, base) == Some(v),
    ensures
        base_of(v) == base,
        exists|k: int|
            0 <= k < packages.len() && version_in((#[trigger] packages[k]).name@) == Some(v),
        forall|k: int|
            0 <= k < packages.len() ==> (version_in((#[trigger] packages[k]).name@) matches Some(w)
                ==> base_of(w) == base ==> byte_length(w) <= byte_length(v)),
    decreases packages.len(),
{
    let rest = packages.drop_last();
    let before = spelling(rest, base);
    if before is Some {
        law_a_kernel_is_called_by_its_longest_spelling(rest, base, before->0);
        let k = choose|k: int|
            0 <= k < rest.len() && version_in((#[trigger] rest[k]).name@) == Some(before->0);
        assert(packages[k] == rest[k]);
    } else {
        lemma_no_spelling(rest, base);
    }
    assert(packages[packages.len() - 1] == packages.last());
    assert forall|k: int| 0 <= k < packages.len() implies (version_in(
        (#[trigger] packages[k]).name@,
    ) matches Some(w) ==> base_of(w) == base ==> byte_length(w) <= byte_length(v)) by {
        if k < rest.len() {
            assert(rest[k] == packages[k]);
        }
    }
}

proof fn lemma_no_spelling(packages: Seq<Package>, base: Seq<char>)
    requires
        spelling(packages, base) is None,
    ensures
        forall|k: int|
            0 <= k < packages.len() ==> (version_in((#[trigger] packages[k]).name@) matches Some(w)
                ==> base_of(w) != base),
    decreases packages.len(),
{
    if packages.len() > 0 {
        let rest = packages.drop_last();
        lemma_no_spelling(rest, base);
        assert forall|k: int| 0 <= k < packages.len() implies (version_in(
            (#[trigger] packages[k]).name@,
        ) matches Some(w) ==> base_of(w) != base) by {
            if k < rest.len() {
                assert(rest[k] == packages[k]);
            }
        }
    }
}

/// dpkg's packages are APT's, and a package is measured by the files that it
/// lists; without such a list that is an error which names it.
pub proof fn law_dpkg_speaks_for_itself(
    b: DpkgBackend,
    id: Seq<char>,
    facts: Seq<PathFact>,
    r: Result<Measured>,
    all: Seq<Leftover>,
)
    ensures
        b.measures(id, Some(facts), r) ==> r == Ok::<Measured, AppError>(measured_of(facts)),
        b.measures(id, None, r) ==> (r matches Err(e) && e.code == ErrorCode::NotFound),
        b.left_behind(all) == residuals_of(all),
{
}

/// What APT says will be freed is its figure times its unit.
pub proof fn law_a_phrase_is_its_figure_times_its_unit(n: nat, unit: Seq<char>)
    requires
        unit.len() > 0,
        forall|i: int| 0 <= i < unit.len() ==> !is_space(#[trigger] unit[i]),
        n < 9007199254740992,
        n * apt_unit(unit) < 9007199254740992,
    ensures
        apt_size(decimal(n).push(' ') + unit) == n * apt_unit(unit),
{
    let d = decimal(n);
    crate::text::law_decimal_reads_back(n);
    crate::text::law_no_zeros_are_written_first(n);
    assert forall|i: int| 0 <= i < d.len() implies !is_space(#[trigger] d[i]) && d[i] != ',' by {
        assert(is_digit(d[i]));
    }
    crate::text::law_white_space_parts_words(d, ' ', unit);
    crate::text::law_white_space_parts_words(unit, ' ', d);
    let w = words(d.push(' ') + unit);
    assert(w =~= seq![d, unit]);
    super::lemma_nothing_to_take_out(d, ',');
    crate::decimal::law_whole_numbers_are_scaled_exactly(n, apt_unit(unit));
}

} // verus!
