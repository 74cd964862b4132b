//! Flatpak: what is installed, which runtimes nothing needs, and how much of
//! a deployment its repository shares.
use std::collections::{HashMap, HashSet};
use vstd::prelude::*;
use vstd::string::*;
use crate::double::capped;
use crate::paths::{join, joined, opt_str};
use crate::space::Reclaimable;
use crate::text::{begins, chars_of, decimal, is_text, lines, opt_text, pieces, push_u64, same_str, split_lines, split_on, starts_with, string_of, texts, trim, trimmed, views};
use super::{block_bytes, capped_add, owned_args, Query};

verus! {

broadcast use {vstd::std_specs::hash::group_hash_axioms, vstd::string::group_string_axioms};

/// The system installation.
pub const SYSTEM_ROOT: &'static str = "/var/lib/flatpak";

/// A per-user installation, from what the environment says.
pub open spec fn user_root_of(
    data_home: Option<Seq<char>>,
    home: Option<Seq<char>>,
) -> Option<Seq<char>> {
    match data_home {
        Some(data) if data.len() > 0 => Some(joined(data, "flatpak"@)),
        _ => match home {
            Some(h) if h.len() > 0 => Some(joined(h, ".local/share/flatpak"@)),
            _ => None,
        },
    }
}

/// A per-user installation, if the environment describes one.
pub fn user_root(data_home: Option<&str>, home: Option<&str>) -> (r: Option<String>)
    ensures
        opt_text(r) == user_root_of(opt_str(data_home), opt_str(home)),
{
    if let Some(data) = data_home {
        if !data.is_empty() {
            return Some(join(data, "flatpak"));
        }
    }
    match home {
        Some(h) => if !h.is_empty() {
            Some(join(h, ".local/share/flatpak"))
        } else {
            None
        },
        None => None,
    }
}

/// Whether a ref is an application or a runtime.
#[derive(Debug, Clone, Copy, PartialEq, Eq, Structural)]
pub enum RefKind {
    App,
    Runtime,
}

/// One installed ref.
#[derive(Debug, PartialEq, Eq)]
pub struct Ref {
    /// Such as `runtime/org.freedesktop.Platform/x86_64/23.08`.
    pub reference: String,
    pub kind: RefKind,
    pub id: String,
    pub arch: String,
    pub branch: String,
    /// For an application, the runtime it declares. Empty for a runtime.
    pub runtime: String,
}

impl Clone for Ref {
    fn clone(&self) -> (r: Self)
        ensures
            r == *self,
    {
        Ref {
            reference: self.reference.clone(),
            kind: self.kind,
            id: self.id.clone(),
            arch: self.arch.clone(),
            branch: self.branch.clone(),
            runtime: self.runtime.clone(),
        }
    }
}

/// A ref with its texts.
pub struct RefText {
    pub reference: Seq<char>,
    pub kind: RefKind,
    pub id: Seq<char>,
    pub arch: Seq<char>,
    pub branch: Seq<char>,
    pub runtime: Seq<char>,
}

/// What a ref says.
pub open spec fn ref_text(r: Ref) -> RefText {
    RefText {
        reference: r.reference@,
        kind: r.kind,
        id: r.id@,
        arch: r.arch@,
        branch: r.branch@,
        runtime: r.runtime@,
    }
}

/// What some refs say.
pub open spec fn ref_texts(v: Seq<Ref>) -> Seq<RefText> {
    v.map_values(|r: Ref| ref_text(r))
}

/// A piece of a list; nothing where it has no such piece.
pub open spec fn piece_or_empty(p: Seq<Seq<char>>, i: int) -> Seq<char> {
    if i < p.len() {
        p[i]
    } else {
        Seq::empty()
    }
}

/// The ref that a reference spells, with the runtime that goes with it.
pub open spec fn ref_of(reference: Seq<char>, runtime: Seq<char>) -> Option<RefText> {
    let p = pieces(reference, '/');
    if p.len() < 2 || p[1].len() == 0 || !(p[0] == "app"@ || p[0] == "runtime"@) {
        None
    } else {
        Some(
            RefText {
                reference,
                kind: if p[0] == "app"@ {
                    RefKind::App
                } else {
                    RefKind::Runtime
                },
                id: p[1],
                arch: piece_or_empty(p, 2),
                branch: piece_or_empty(p, 3),
                runtime,
            },
        )
    }
}

fn piece_at(p: &Vec<&[char]>, i: usize) -> (r: String)
    ensures
        r@ == piece_or_empty(views(p@), i as int),
{
    if i < p.len() {
        assert(views(p@)[i as int] == p@[i as int]@);
        string_of(p[i])
    } else {
        String::new()
    }
}

/// Whether one identifier extends another: it begins with the other and goes
/// on with a dot.
pub open spec fn extension(id: Seq<char>, parent: Seq<char>) -> bool {
    id.len() > parent.len() && begins(id, parent) && id[parent.len() as int] == '.'
}

/// What a kind of ref is called.
pub open spec fn kind_name(k: RefKind) -> Seq<char> {
    match k {
        RefKind::App => "app"@,
        RefKind::Runtime => "runtime"@,
    }
}

impl Ref {
    /// Parses one reference.
    pub fn parse(reference: &str, runtime: &str) -> (r: Option<Self>)
        ensures
            match r {
                Some(x) => ref_of(reference@, runtime@) == Some(ref_text(x)),
                None => ref_of(reference@, runtime@) is None,
            },
    {
        let chars = chars_of(reference);
        let p = split_on(chars.as_slice(), '/');
        assert(views(p@).len() == p@.len());
        assert(views(p@)[0] == p@[0]@);
        let app = is_text(p[0], "app");
        let kind = if app {
            RefKind::App
        } else if is_text(p[0], "runtime") {
            RefKind::Runtime
        } else {
            return None;
        };
        if p.len() < 2 {
            return None;
        }
        assert(views(p@)[1] == p@[1]@);
        if p[1].len() == 0 {
            return None;
        }
        Some(
            Ref {
                reference: reference.to_owned(),
                kind,
                id: string_of(p[1]),
                arch: piece_at(&p, 2),
                branch: piece_at(&p, 3),
                runtime: runtime.to_owned(),
            },
        )
    }

    /// Where this ref is deployed inside an installation.
    pub fn deploy_dir(&self, root: &str) -> (r: String)
        ensures
            r@ == joined(
                joined(joined(joined(root@, kind_name(self.kind)), self.id@), self.arch@),
                self.branch@,
            ),
    {
        let kind = match self.kind {
            RefKind::App => "app",
            RefKind::Runtime => "runtime",
        };
        let a = join(root, kind);
        let b = join(a.as_str(), self.id.as_str());
        let c = join(b.as_str(), self.arch.as_str());
        join(c.as_str(), self.branch.as_str())
    }

    /// Whether this ref is an extension of `parent`, by whole parts of the
    /// dotted identifier.
    pub fn extends(&self, parent: &str) -> (r: bool)
        ensures
            r == extension(self.id@, parent@),
    {
        let id = chars_of(self.id.as_str());
        let p = chars_of(parent);
        id.len() > p.len() && starts_with(id.as_slice(), parent) && id[p.len()] == '.'
    }
}

/// The ref that a line gives.
pub open spec fn ref_line(line: Seq<char>) -> Option<RefText> {
    if trimmed(line).len() == 0 {
        None
    } else {
        let f = pieces(line, '\t');
        ref_of(trimmed(f[0]), trimmed(piece_or_empty(f, 1)))
    }
}

/// The refs that some lines give, in order.
pub open spec fn ref_lines(all: Seq<Seq<char>>) -> Seq<RefText>
    decreases all.len(),
{
    if all.len() == 0 {
        Seq::empty()
    } else {
        match ref_line(all.last()) {
            Some(r) => ref_lines(all.drop_last()).push(r),
            None => ref_lines(all.drop_last()),
        }
    }
}

/// Parses a list of refs and their runtimes, one a line with a tab between
/// them.
pub fn parse_list(output: &str) -> (r: Vec<Ref>)
    ensures
        ref_texts(r@) == ref_lines(lines(output@)),
{
    let chars = chars_of(output);
    let rows = split_lines(chars.as_slice());
    let ghost all = lines(output@);
    let mut out: Vec<Ref> = Vec::new();
    let mut i: usize = 0;
    assert(all.take(0) =~= Seq::<Seq<char>>::empty());
    assert(ref_texts(out@) =~= Seq::<RefText>::empty());
    while i < rows.len()
        invariant
            i <= rows@.len(),
            views(rows@) == all,
            ref_texts(out@) == ref_lines(all.take(i as int)),
        decreases rows@.len() - i,
    {
        assert(all.take(i + 1).drop_last() =~= all.take(i as int));
        assert(all.take(i + 1).last() == rows@[i as int]@);
        if trim(rows[i]).len() > 0 {
            let f = split_on(rows[i], '\t');
            assert(views(f@)[0] == f@[0]@);
            let reference = string_of(trim(f[0]));
            let second = piece_at(&f, 1);
            let second_chars = chars_of(second.as_str());
            let runtime = string_of(trim(second_chars.as_slice()));
            if let Some(x) = Ref::parse(reference.as_str(), runtime.as_str()) {
                let ghost before = ref_texts(out@);
                out.push(x);
                assert(ref_texts(out@) =~= before.push(ref_text(x)));
            }
        }
        i = i + 1;
    }
    assert(all.take(i as int) =~= all);
    out
}

/// The command that lists everything installed, in columns that do not depend
/// on a language.
pub fn installed_query() -> (r: Query)
    ensures
        r.program@ == "flatpak"@,
        texts(r.args@) == seq!["list"@, "--columns=ref,runtime"@],
{
    let args = vec!["list", "--columns=ref,runtime"];
    let owned = owned_args(&args);
    assert(texts(owned@) =~= seq!["list"@, "--columns=ref,runtime"@]);
    Query { program: "flatpak", args: owned }
}

/// Everything installed, from the answer to that.
pub fn installed(output: &str) -> (r: Vec<Ref>)
    ensures
        ref_texts(r@) == ref_lines(lines(output@)),
{
    parse_list(output)
}

/// Whether an application that declares this runtime needs a ref: it is the
/// runtime itself, or has its identifier, or extends it.
pub open spec fn needs(app: RefText, r: RefText) -> bool {
    &&& app.kind == RefKind::App
    &&& app.runtime.len() > 0
    &&& {
        ||| app.runtime == r.reference
        ||| pieces(app.runtime, '/').len() > 1 && (extension(r.id, pieces(app.runtime, '/')[1])
            || r.id == pieces(app.runtime, '/')[1])
    }
}

/// Whether some installed application needs a ref.
pub open spec fn is_needed(refs: Seq<RefText>, r: RefText) -> bool {
    exists|i: int| 0 <= i < refs.len() && needs(#[trigger] refs[i], r)
}

/// The runtimes among some refs that nothing needs, in order.
pub open spec fn unneeded(part: Seq<Ref>, refs: Seq<RefText>) -> Seq<Ref>
    decreases part.len(),
{
    if part.len() == 0 {
        part
    } else if part.last().kind == RefKind::Runtime && !is_needed(refs, ref_text(part.last())) {
        unneeded(part.drop_last(), refs).push(part.last())
    } else {
        unneeded(part.drop_last(), refs)
    }
}

fn app_needs(app: &Ref, r: &Ref) -> (b: bool)
    ensures
        b == needs(ref_text(*app), ref_text(*r)),
{
    if app.kind != RefKind::App || app.runtime.as_str().is_empty() {
        return false;
    }
    if same_str(app.runtime.as_str(), r.reference.as_str()) {
        return true;
    }
    let chars = chars_of(app.runtime.as_str());
    let p = split_on(chars.as_slice(), '/');
    assert(views(p@).len() == p@.len());
    if p.len() < 2 {
        return false;
    }
    assert(views(p@)[1] == p@[1]@);
    let id = string_of(p[1]);
    r.extends(id.as_str()) || same_str(r.id.as_str(), id.as_str())
}

/// The runtimes that no installed application needs: none declares it, and
/// none declares a runtime that it extends.
pub fn unused_runtimes(refs: &Vec<Ref>) -> (r: Vec<Ref>)
    ensures
        r@ == unneeded(refs@, ref_texts(refs@)),
{
    let ghost all = ref_texts(refs@);
    let mut out: Vec<Ref> = Vec::new();
    let mut i: usize = 0;
    assert(refs@.take(0) =~= Seq::<Ref>::empty());
    while i < refs.len()
        invariant
            i <= refs@.len(),
            all == ref_texts(refs@),
            out@ == unneeded(refs@.take(i as int), all),
        decreases refs@.len() - i,
    {
        assert(refs@.take(i + 1).drop_last() =~= refs@.take(i as int));
        assert(refs@.take(i + 1).last() == refs@[i as int]);
        let r = &refs[i];
        if r.kind == RefKind::Runtime {
            let mut needed = false;
            let mut j: usize = 0;
            while j < refs.len() && !needed
                invariant
                    j <= refs@.len(),
                    all == ref_texts(refs@),
                    needed ==> is_needed(all, ref_text(*r)),
                    !needed ==> forall|k: int|
                        0 <= k < j ==> !needs(#[trigger] all[k], ref_text(*r)),
                decreases refs@.len() - j,
            {
                assert(all[j as int] == ref_text(refs@[j as int]));
                if app_needs(&refs[j], r) {
                    needed = true;
                }
                j = j + 1;
            }
            if !needed {
                out.push(r.clone());
            }
        }
        i = i + 1;
    }
    assert(refs@.take(i as int) =~= refs@);
    out
}

// ---------------------------------------------------------------------------
// Deployed trees
// ---------------------------------------------------------------------------

/// What a directory takes, and whether it shares that with something outside.
#[derive(Debug, Clone, Copy, PartialEq, Eq, Structural)]
pub struct TreeSize {
    /// On-disk bytes, each file counted once.
    pub bytes: u64,
    /// Files with a name outside the tree as well.
    pub shared_files: u64,
}

impl Default for TreeSize {
    fn default() -> (r: Self)
        ensures
            r.bytes == 0,
            r.shared_files == 0,
    {
        TreeSize { bytes: 0, shared_files: 0 }
    }
}

/// What has to be said of a tree that shares some of its files.
pub open spec fn sharing_reason(shared_files: u64, what: Seq<char>) -> Seq<char> {
    (if shared_files == 1 {
        "Part"@
    } else {
        decimal(shared_files as nat) + " files"@
    }) + " of this "@ + what
        + " is hard-linked into flatpak's repository, so the space returns only when that repository is pruned."@
}

impl TreeSize {
    /// How much of the bytes a removal would actually return. A file that the
    /// repository still holds returns nothing.
    pub fn reclaimable(self, what: &str) -> (r: Reclaimable)
        ensures
            if self.shared_files == 0 {
                r is Exact
            } else {
                r matches Reclaimable::AtMost { exclusive, reason } && exclusive is None && reason@
                    == sharing_reason(self.shared_files, what@)
            },
    {
        if self.shared_files == 0 {
            return Reclaimable::Exact;
        }
        let mut reason = String::new();
        if self.shared_files == 1 {
            reason.append("Part");
        } else {
            push_u64(&mut reason, self.shared_files);
            reason.append(" files");
        }
        reason.append(" of this ");
        reason.append(what);
        reason.append(
            " is hard-linked into flatpak's repository, so the space returns only when that repository is pruned.",
        );
        assert(reason@ =~= sharing_reason(self.shared_files, what@));
        Reclaimable::AtMost { exclusive: None, reason }
    }
}

/// One name in a tree that is not a directory: which file it names, the
/// blocks of 512 bytes that the file takes, and how many names it has.
#[derive(Debug, Clone, Copy, PartialEq, Eq, Structural)]
pub struct TreeFact {
    pub device: u64,
    pub inode: u64,
    pub blocks: u64,
    pub links: u64,
}

/// Which file a name is of.
pub open spec fn tree_key(f: TreeFact) -> u128 {
    (f.device * 0x10000000000000000 + f.inode) as u128
}

/// How many names of a file are among some.
pub open spec fn names_of(facts: Seq<TreeFact>, key: u128) -> nat
    decreases facts.len(),
{
    if facts.len() == 0 {
        0
    } else {
        names_of(facts.drop_last(), key) + if tree_key(facts.last()) == key {
            1nat
        } else {
            0
        }
    }
}

/// What some names of a tree add up to: the bytes of the files, each counted
/// where it is first named, and how many of them have names elsewhere.
pub open spec fn tree_sums(part: Seq<TreeFact>, all: Seq<TreeFact>) -> (nat, nat)
    decreases part.len(),
{
    if part.len() == 0 {
        (0, 0)
    } else {
        let (bytes, shared) = tree_sums(part.drop_last(), all);
        let f = part.last();
        if names_of(part.drop_last(), tree_key(f)) > 0 {
            (bytes, shared)
        } else {
            (
                bytes + capped((f.blocks * 512) as nat) as nat,
                shared + if f.links > names_of(all, tree_key(f)) {
                    1nat
                } else {
                    0
                },
            )
        }
    }
}

fn tree_key_of(f: &TreeFact) -> (r: u128)
    ensures
        r == tree_key(*f),
{
    f.device as u128 * 0x10000000000000000 + f.inode as u128
}

/// How many names each file has among some.
fn count_names(facts: &Vec<TreeFact>) -> (r: HashMap<u128, u64>)
    ensures
        forall|key: u128| #[trigger]
            r@.contains_key(key) <==> names_of(facts@, key) > 0,
        forall|key: u128| #[trigger]
            r@.contains_key(key) ==> r@[key] == names_of(facts@, key),
{
    let mut out: HashMap<u128, u64> = HashMap::new();
    let mut i: usize = 0;
    assert(facts@.take(0) =~= Seq::<TreeFact>::empty());
    while i < facts.len()
        invariant
            i <= facts@.len(),
            forall|key: u128| #[trigger]
                out@.contains_key(key) <==> names_of(facts@.take(i as int), key) > 0,
            forall|key: u128| #[trigger]
                out@.contains_key(key) ==> out@[key] == names_of(facts@.take(i as int), key),
        decreases facts@.len() - i,
    {
        let ghost before = out@;
        assert(facts@.take(i + 1).drop_last() =~= facts@.take(i as int));
        assert(facts@.take(i + 1).last() == facts@[i as int]);
        let key: u128 = tree_key_of(&facts[i]);
        proof {
            lemma_names_bound(facts@.take(i as int), key);
        }
        let count: u64 = match out.get(&key) {
            Some(n) => *n + 1,
            None => 1,
        };
        out.insert(key, count);
        assert forall|k: u128| #[trigger] out@.contains_key(k) implies out@[k] == names_of(
            facts@.take(i + 1),
            k,
        ) by {
            if k != key {
                assert(before.contains_key(k));
            }
        }
        assert forall|k: u128| #[trigger] out@.contains_key(k) <==> names_of(
            facts@.take(i + 1),
            k,
        ) > 0 by {
            assert(before.contains_key(k) <==> names_of(facts@.take(i as int), k) > 0);
        }
        i = i + 1;
    }
    assert(facts@.take(i as int) =~= facts@);
    out
}

proof fn lemma_names_bound(facts: Seq<TreeFact>, key: u128)
    ensures
        names_of(facts, key) <= facts.len(),
    decreases facts.len(),
{
    if facts.len() > 0 {
        lemma_names_bound(facts.drop_last(), key);
    }
}

/// Measures a tree from the names in it that are not directories: each file
/// counts once, and one that has names elsewhere is noticed.
pub fn measure_tree(facts: &Vec<TreeFact>) -> (r: TreeSize)
    ensures
        r.bytes == capped(tree_sums(facts@, facts@).0),
        r.shared_files == tree_sums(facts@, facts@).1,
{
    let counts = count_names(facts);
    let mut seen: HashSet<u128> = HashSet::new();
    let mut bytes: u64 = 0;
    let mut shared: u64 = 0;
    let mut i: usize = 0;
    assert(facts@.take(0) =~= Seq::<TreeFact>::empty());
    while i < facts.len()
        invariant
            i <= facts@.len(),
            forall|key: u128| #[trigger]
                counts@.contains_key(key) <==> names_of(facts@, key) > 0,
            forall|key: u128| #[trigger]
                counts@.contains_key(key) ==> counts@[key] == names_of(facts@, key),
            forall|key: u128| #[trigger]
                seen@.contains(key) <==> names_of(facts@.take(i as int), key) > 0,
            bytes == capped(tree_sums(facts@.take(i as int), facts@).0),
            shared == tree_sums(facts@.take(i as int), facts@).1,
            shared <= i,
        decreases facts@.len() - i,
    {
        let ghost before = seen@;
        assert(facts@.take(i + 1).drop_last() =~= facts@.take(i as int));
        assert(facts@.take(i + 1).last() == facts@[i as int]);
        let key: u128 = tree_key_of(&facts[i]);
        if !seen.contains(&key) {
            seen.insert(key);
            bytes = capped_add(bytes, block_bytes(facts[i].blocks));
            let inside: u64 = match counts.get(&key) {
                Some(n) => *n,
                None => 0,
            };
            if facts[i].links > inside {
                shared = shared + 1;
            }
        }
        assert forall|k: u128| #[trigger] seen@.contains(k) <==> names_of(
            facts@.take(i + 1),
            k,
        ) > 0 by {
            assert(before.contains(k) <==> names_of(facts@.take(i as int), k) > 0);
        }
        i = i + 1;
    }
    assert(facts@.take(i as int) =~= facts@);
    TreeSize { bytes, shared_files: shared }
}

/// Where an installation keeps its objects.
pub fn repository_dir(root: &str) -> (r: String)
    ensures
        r@ == joined(root@, "repo"@),
{
    join(root, "repo")
}

/// The size of an installation's repository, from the names in it.
pub fn repository_size(facts: &Vec<TreeFact>) -> (r: TreeSize)
    ensures
        r.bytes == capped(tree_sums(facts@, facts@).0),
        r.shared_files == tree_sums(facts@, facts@).1,
{
    measure_tree(facts)
}

/// A runtime that an installed application needs is never offered, nor is an
/// extension of one: nothing that is offered is needed.
pub proof fn law_nothing_needed_is_offered(part: Seq<Ref>, refs: Seq<RefText>, i: int)
    requires
        0 <= i < unneeded(part, refs).len(),
    ensures
        unneeded(part, refs)[i].kind == RefKind::Runtime,
        !is_needed(refs, ref_text(unneeded(part, refs)[i])),
    decreases part.len(),
{
    if i < unneeded(part.drop_last(), refs).len() {
        law_nothing_needed_is_offered(part.drop_last(), refs, i);
        if part.last().kind == RefKind::Runtime && !is_needed(refs, ref_text(part.last())) {
            assert(unneeded(part, refs)[i] == unneeded(part.drop_last(), refs)[i]);
        }
    }
}

/// Nothing extends itself.
pub proof fn law_nothing_extends_itself(id: Seq<char>)
    ensures
        !extension(id, id),
{
}

/// A reference names its kind, its identity, its architecture and its branch
/// in that order.
pub proof fn law_a_reference_names_its_parts(reference: Seq<char>, runtime: Seq<char>, r: RefText)
    requires
        ref_of(reference, runtime) == Some(r),
    ensures
        ({
            let p = pieces(reference, '/');
            &&& p.len() >= 2
            &&& r.reference == reference
            &&& r.runtime == runtime
            &&& (r.kind == RefKind::App) == (p[0] == "app"@)
            &&& (r.kind == RefKind::Runtime) == (p[0] == "runtime"@)
            &&& r.id == p[1]
            &&& p.len() > 2 ==> r.arch == p[2]
            &&& p.len() > 3 ==> r.branch == p[3]
        }),
{
    reveal_strlit("app");
    reveal_strlit("runtime");
    assert("app"@.len() == 3 && "runtime"@.len() == 7);
}

/// Each line of a list gives the reference in its first column and the
/// runtime that it declares in its second.
pub proof fn law_every_reference_is_listed(all: Seq<Seq<char>>, line: Seq<char>)
    ensures
        ref_line(line) matches Some(r) ==> ref_lines(all.push(line)) == ref_lines(all).push(r),
        ref_line(line) is None ==> ref_lines(all.push(line)) == ref_lines(all),
        ref_line(line) matches Some(r) ==> r.reference == trimmed(pieces(line, '\t')[0]) && (
        pieces(line, '\t').len() > 1 ==> r.runtime == trimmed(pieces(line, '\t')[1])),
{
    assert(all.push(line).drop_last() =~= all);
}

/// What an application needs: the runtime that it declares, whatever is of the
/// same identity, and what extends it, which has that identity with a dot and
/// a name behind. A runtime needs nothing.
pub proof fn law_what_an_application_needs(app: RefText, r: RefText)
    ensures
        app.kind == RefKind::Runtime ==> !needs(app, r),
        app.runtime.len() == 0 ==> !needs(app, r),
        app.kind == RefKind::App && app.runtime.len() > 0 && r.reference == app.runtime ==> needs(
            app,
            r,
        ),
        app.kind == RefKind::App && pieces(app.runtime, '/').len() > 1 && app.runtime.len() > 0 && (
        r.id == pieces(app.runtime, '/')[1] || (exists|name: Seq<char>|
            r.id == #[trigger] (pieces(app.runtime, '/')[1].push('.') + name))) ==> needs(app, r),
        needs(app, r) ==> r.reference == app.runtime || (pieces(app.runtime, '/').len() > 1 && (r.id
            == pieces(app.runtime, '/')[1] || begins(
            r.id,
            pieces(app.runtime, '/')[1].push('.'),
        ))),
{
    if pieces(app.runtime, '/').len() > 1 {
        let parent = pieces(app.runtime, '/')[1];
        let n = parent.len() as int;
        if exists|name: Seq<char>| r.id == #[trigger] (parent.push('.') + name) {
            let name = choose|name: Seq<char>| r.id == #[trigger] (parent.push('.') + name);
            assert(r.id.take(n) =~= parent);
            assert(r.id[n] == '.');
        }
        if extension(r.id, parent) {
            assert(r.id.take(n + 1) =~= parent.push('.')) by {
                assert(r.id.take(n) == parent);
                assert forall|i: int| 0 <= i < n implies r.id[i] == parent[i] by {
                    assert(r.id.take(n)[i] == parent[i]);
                }
            }
        }
    }
}

/// Every runtime that no application needs is unused; no application is, and
/// nothing that is needed.
pub proof fn law_every_unneeded_runtime_is_unused(part: Seq<Ref>, refs: Seq<RefText>, r: Ref)
    ensures
        r.kind == RefKind::Runtime && (forall|i: int|
            0 <= i < refs.len() ==> !needs(#[trigger] refs[i], ref_text(r))) ==> unneeded(
            part.push(r),
            refs,
        ) == unneeded(part, refs).push(r),
        r.kind == RefKind::App || (exists|i: int|
            0 <= i < refs.len() && needs(#[trigger] refs[i], ref_text(r))) ==> unneeded(
            part.push(r),
            refs,
        ) == unneeded(part, refs),
        ref_text(r).id == r.id@,
        ref_text(r).reference == r.reference@,
        ref_text(r).kind == r.kind,
        ref_text(r).arch == r.arch@,
        ref_text(r).branch == r.branch@,
        ref_text(r).runtime == r.runtime@,
{
    assert(part.push(r).drop_last() =~= part);
}

proof fn lemma_names_of(facts: Seq<TreeFact>, key: u128)
    ensures
        names_of(facts, key) > 0 <==> exists|i: int|
            0 <= i < facts.len() && tree_key(#[trigger] facts[i]) == key,
    decreases facts.len(),
{
    if facts.len() > 0 {
        let rest = facts.drop_last();
        lemma_names_of(rest, key);
        if exists|i: int| 0 <= i < rest.len() && tree_key(#[trigger] rest[i]) == key {
            let i = choose|i: int| 0 <= i < rest.len() && tree_key(#[trigger] rest[i]) == key;
            assert(facts[i] == rest[i]);
        }
        if exists|i: int| 0 <= i < facts.len() && tree_key(#[trigger] facts[i]) == key {
            let i = choose|i: int| 0 <= i < facts.len() && tree_key(#[trigger] facts[i]) == key;
            if i < rest.len() {
                assert(rest[i] == facts[i]);
            }
        }
        if tree_key(facts.last()) == key {
            assert(facts[facts.len() - 1] == facts.last());
        }
    }
}

/// A tree takes the blocks of its files, each file once however many names it
/// has there; and a file is shared exactly where it has more names than the
/// tree knows.
pub proof fn law_each_file_of_a_tree_counts_once(
    part: Seq<TreeFact>,
    all: Seq<TreeFact>,
    f: TreeFact,
)
    ensures
        ({
            let seen = exists|i: int|
                0 <= i < part.len() && (#[trigger] part[i]).device == f.device && part[i].inode
                    == f.inode;
            let before = tree_sums(part, all);
            let after = tree_sums(part.push(f), all);
            if seen {
                after == before
            } else {
                &&& f.blocks * 512 <= u64::MAX ==> after.0 == before.0 + f.blocks * 512
                &&& after.1 == before.1 + (if f.links > names_of(all, tree_key(f)) {
                    1int
                } else {
                    0
                })
            }
        }),
        tree_sums(Seq::<TreeFact>::empty(), all) == (0nat, 0nat),
        names_of(all.push(f), tree_key(f)) == names_of(all, tree_key(f)) + 1,
{
    assert(part.push(f).drop_last() =~= part);
    assert(all.push(f).drop_last() =~= all);
    lemma_names_of(part, tree_key(f));
    if exists|i: int|
        0 <= i < part.len() && (#[trigger] part[i]).device == f.device && part[i].inode
            == f.inode {
        let i = choose|i: int|
            0 <= i < part.len() && (#[trigger] part[i]).device == f.device && part[i].inode
                == f.inode;
        assert(tree_key(part[i]) == tree_key(f));
    }
    if names_of(part, tree_key(f)) > 0 {
        let i = choose|i: int| 0 <= i < part.len() && tree_key(#[trigger] part[i]) == tree_key(f);
        assert(part[i].device == f.device && part[i].inode == f.inode);
    }
}

/// The user's own installation lies below the directory for data, or below the
/// usual one in the home directory.
pub proof fn law_where_a_users_installation_lies(
    data_home: Option<Seq<char>>,
    home: Option<Seq<char>>,
)
    ensures
        data_home matches Some(d) ==> d.len() > 0 ==> user_root_of(data_home, home) == Some(
            joined(d, "flatpak"@),
        ),
        !(data_home matches Some(d) && d.len() > 0) ==> match home {
            Some(h) if h.len() > 0 => user_root_of(data_home, home) == Some(
                joined(h, ".local/share/flatpak"@),
            ),
            _ => user_root_of(data_home, home) is None,
        },
{
}

/// A tree that shares no file comes back whole; of one that does nothing may
/// be promised. A reference is deployed under its kind, identity,
/// architecture and branch.
pub proof fn law_a_shared_tree_promises_nothing(
    t: TreeSize,
    what: &str,
    promise: Reclaimable,
    r: Ref,
    root: &str,
    dir: String,
)
    requires
        call_ensures(TreeSize::reclaimable, (t, what), promise),
        call_ensures(Ref::deploy_dir, (&r, root), dir),
    ensures
        t.shared_files == 0 ==> promise is Exact,
        t.shared_files > 0 ==> (promise matches Reclaimable::AtMost { exclusive, .. } && exclusive
            is None),
        r.kind == RefKind::App ==> dir@ == joined(
            joined(joined(joined(root@, "app"@), r.id@), r.arch@),
            r.branch@,
        ),
        r.kind == RefKind::Runtime ==> dir@ == joined(
            joined(joined(joined(root@, "runtime"@), r.id@), r.arch@),
            r.branch@,
        ),
{
}

} // verus!
