//! What the built-in protection rules promise of themselves: each one answers
//! for what it names, and none hides another.
use vstd::prelude::*;
use vstd::string::*;
use crate::paths::{absolute, components, joined, law_join_adds_one_component, named, path_within};
use crate::protect::{first_location, first_name, guard_objection, protected_names, protected_prefixes, Guard, RuleText};
use crate::text::pieces;

verus! {

broadcast use vstd::string::group_string_axioms;

/// A name that is neither hidden nor made of several.
spec fn is_plain(w: Seq<char>) -> bool {
    w.len() > 0 && !w.contains('/') && w[0] != '.'
}

/// What tells the names in the rules apart: the first character, the last and
/// the length.
spec fn mark(w: Seq<char>) -> (char, char, nat) {
    (w[0], w.last(), w.len())
}

/// The marks of the directories below the root.
spec fn top_marks() -> Seq<(char, char, nat)> {
    seq![
        ('b', 'n', 3),
        ('s', 'n', 4),
        ('l', 'b', 3),
        ('l', '2', 5),
        ('l', '4', 5),
        ('u', 'r', 3),
        ('b', 't', 4),
        ('e', 'i', 3),
        ('p', 'c', 4),
        ('s', 's', 3),
        ('d', 'v', 3),
        ('r', 'n', 3),
        ('e', 'c', 3),
        ('v', 'r', 3),
        ('v', 'r', 3),
        ('v', 'r', 3),
        ('v', 'r', 3),
        ('v', 'r', 3),
        ('v', 'r', 3),
        ('v', 'r', 3),
        ('v', 'r', 3),
        ('v', 'r', 3),
        ('v', 'r', 3),
        ('v', 'r', 3),
        ('m', 'a', 5),
        ('m', 't', 3),
        ('r', 't', 4),
    ]
}

/// The marks of the directories that hold a program's state.
spec fn state_marks() -> Seq<(char, char, nat)> {
    seq![
        ('d', 'g', 4),
        ('r', 'm', 3),
        ('p', 'n', 6),
        ('f', 'k', 7),
        ('s', 'd', 5),
        ('m', 'l', 5),
        ('p', 'l', 10),
        ('m', 'b', 7),
        ('i', 'b', 8),
        ('d', 'r', 6),
        ('c', 's', 10),
    ]
}

/// Whether a rule covers a directory of state, two levels down, and not one
/// right below the root.
spec fn is_state(k: int) -> bool {
    13 <= k < 24
}

/// What the components of a rule's location look like.
spec fn is_shaped(k: int) -> bool {
    let c = components(protected_prefixes()[k].prefix);
    &&& c.len() >= 2
    &&& c[0] == seq!['/']
    &&& mark(c[1]) == top_marks()[k]
    &&& forall|i: int| 1 <= i < c.len() ==> #[trigger] is_plain(c[i])
    &&& if is_state(k) {
        c.len() >= 4 && mark(c[3]) == state_marks()[k - 13]
    } else {
        c.len() == 2
    }
}

proof fn lemma_root()
    ensures
        components(seq!['/']) == seq![seq!['/']],
{
    let root = seq!['/'];
    let none = Seq::<char>::empty();
    crate::paths::lemma_pieces_single(none, '/');
    crate::paths::lemma_pieces_join(none, '/', none);
    assert(none.push('/') + none =~= root);
    let two = seq![none, none];
    assert(pieces(root, '/') =~= two);
    assert(two.drop_last() =~= seq![none]);
    assert(seq![none].drop_last() =~= Seq::<Seq<char>>::empty());
    assert(named(Seq::<Seq<char>>::empty()) =~= Seq::<Seq<char>>::empty());
    assert(named(seq![none]) =~= Seq::<Seq<char>>::empty());
    assert(named(two) =~= Seq::<Seq<char>>::empty());
    assert(components(root) =~= seq![seq!['/']]);
}

proof fn lemma_below(base: Seq<char>, w: Seq<char>)
    requires
        absolute(base),
        base.last() != '/',
        is_plain(w),
    ensures
        components(base.push('/') + w) == components(base).push(w),
{
    assert(w != seq!['.']);
    assert(!absolute(w)) by {
        if absolute(w) {
            assert(w.contains(w[0]));
        }
    }
    assert(joined(base, w) == base.push('/') + w);
    law_join_adds_one_component(base, w);
}

proof fn lemma_below_root(path: Seq<char>)
    requires
        absolute(path),
        is_plain(path.skip(1)),
    ensures
        components(path) == seq![seq!['/'], path.skip(1)],
{
    let w = path.skip(1);
    let root = seq!['/'];
    lemma_root();
    assert(!absolute(w)) by {
        if absolute(w) {
            assert(w.contains(w[0]));
        }
    }
    assert(w != seq!['.']);
    law_join_adds_one_component(root, w);
    assert(joined(root, w) =~= path);
    assert(components(path) =~= seq![seq!['/'], w]);
}

proof fn lemma_top(k: int)
    requires
        0 <= k < protected_prefixes().len(),
        !is_state(k),
        absolute(protected_prefixes()[k].prefix),
        is_plain(protected_prefixes()[k].prefix.skip(1)),
        mark(protected_prefixes()[k].prefix.skip(1)) == top_marks()[k],
    ensures
        is_shaped(k),
{
    lemma_below_root(protected_prefixes()[k].prefix);
}

proof fn lemma_state_directory()
    ensures
        absolute("/var/lib"@),
        "/var/lib"@.last() != '/',
        "/var/lib"@.len() == 8,
        components("/var/lib"@).len() == 3,
        components("/var/lib"@)[0] == seq!['/'],
        mark(components("/var/lib"@)[1]) == ('v', 'r', 3nat),
        is_plain(components("/var/lib"@)[1]),
        is_plain(components("/var/lib"@)[2]),
{
    reveal_strlit("/var");
    reveal_strlit("var");
    reveal_strlit("lib");
    reveal_strlit("/var/lib");
    assert("/var"@.skip(1) =~= "var"@);
    lemma_below_root("/var"@);
    assert("/var/lib"@ =~= "/var"@.push('/') + "lib"@);
    lemma_below("/var"@, "lib"@);
}

proof fn lemma_state(k: int, path: Seq<char>, w: Seq<char>)
    requires
        is_state(k),
        path == "/var/lib"@.push('/') + w,
        is_plain(w),
        mark(w) == state_marks()[k - 13],
    ensures
        components(path) == components("/var/lib"@).push(w),
        protected_prefixes()[k].prefix == path ==> is_shaped(k),
{
    lemma_state_directory();
    lemma_below("/var/lib"@, w);
}

proof fn lemma_top_shapes(k: int)
    requires
        0 <= k < 27,
        !is_state(k),
    ensures
        is_shaped(k),
{
    if k == 0 {
        reveal_strlit("/bin");
    } else if k == 1 {
        reveal_strlit("/sbin");
    } else if k == 2 {
        reveal_strlit("/lib");
    } else if k == 3 {
        reveal_strlit("/lib32");
    } else if k == 4 {
        reveal_strlit("/lib64");
    } else if k == 5 {
        reveal_strlit("/usr");
    } else if k == 6 {
        reveal_strlit("/boot");
    } else if k == 7 {
        reveal_strlit("/efi");
    } else if k == 8 {
        reveal_strlit("/proc");
    } else if k == 9 {
        reveal_strlit("/sys");
    } else if k == 10 {
        reveal_strlit("/dev");
    } else if k == 11 {
        reveal_strlit("/run");
    } else if k == 12 {
        reveal_strlit("/etc");
    } else if k == 24 {
        reveal_strlit("/media");
    } else if k == 25 {
        reveal_strlit("/mnt");
    } else {
        reveal_strlit("/root");
    }
    lemma_top(k);
}

proof fn lemma_state_shapes(k: int)
    requires
        is_state(k),
    ensures
        is_shaped(k),
{
    lemma_state_directory();
    reveal_strlit("/var/lib");
    let path = protected_prefixes()[k].prefix;
    if k == 13 {
        reveal_strlit("/var/lib/dpkg");
        reveal_strlit("dpkg");
        assert(path =~= "/var/lib"@.push('/') + "dpkg"@);
        lemma_state(k, path, "dpkg"@);
    } else if k == 14 {
        reveal_strlit("/var/lib/rpm");
        reveal_strlit("rpm");
        assert(path =~= "/var/lib"@.push('/') + "rpm"@);
        lemma_state(k, path, "rpm"@);
    } else if k == 15 {
        reveal_strlit("/var/lib/pacman");
        reveal_strlit("pacman");
        assert(path =~= "/var/lib"@.push('/') + "pacman"@);
        lemma_state(k, path, "pacman"@);
    } else if k == 16 {
        reveal_strlit("/var/lib/flatpak");
        reveal_strlit("flatpak");
        assert(path =~= "/var/lib"@.push('/') + "flatpak"@);
        lemma_state(k, path, "flatpak"@);
    } else if k == 17 {
        reveal_strlit("/var/lib/snapd");
        reveal_strlit("snapd");
        assert(path =~= "/var/lib"@.push('/') + "snapd"@);
        lemma_state(k, path, "snapd"@);
    } else if k == 18 {
        reveal_strlit("/var/lib/mysql");
        reveal_strlit("mysql");
        assert(path =~= "/var/lib"@.push('/') + "mysql"@);
        lemma_state(k, path, "mysql"@);
    } else if k == 19 {
        reveal_strlit("/var/lib/postgresql");
        reveal_strlit("postgresql");
        assert(path =~= "/var/lib"@.push('/') + "postgresql"@);
        lemma_state(k, path, "postgresql"@);
    } else if k == 20 {
        reveal_strlit("/var/lib/mongodb");
        reveal_strlit("mongodb");
        assert(path =~= "/var/lib"@.push('/') + "mongodb"@);
        lemma_state(k, path, "mongodb"@);
    } else if k == 21 {
        reveal_strlit("/var/lib/influxdb");
        reveal_strlit("influxdb");
        assert(path =~= "/var/lib"@.push('/') + "influxdb"@);
        lemma_state(k, path, "influxdb"@);
    } else if k == 22 {
        reveal_strlit("/var/lib/docker");
        reveal_strlit("docker");
        reveal_strlit("volumes");
        reveal_strlit("/var/lib/docker/volumes");
        let outer = "/var/lib/docker"@;
        assert(outer =~= "/var/lib"@.push('/') + "docker"@);
        lemma_state(k, outer, "docker"@);
        assert(path =~= outer.push('/') + "volumes"@);
        lemma_below(outer, "volumes"@);
    } else {
        reveal_strlit("/var/lib/containers");
        reveal_strlit("containers");
        reveal_strlit("storage");
        reveal_strlit("volumes");
        reveal_strlit("/var/lib/containers/storage");
        reveal_strlit("/var/lib/containers/storage/volumes");
        let outer = "/var/lib/containers"@;
        assert(outer =~= "/var/lib"@.push('/') + "containers"@);
        lemma_state(k, outer, "containers"@);
        let middle = "/var/lib/containers/storage"@;
        assert(middle =~= outer.push('/') + "storage"@);
        lemma_below(outer, "storage"@);
        assert(path =~= middle.push('/') + "volumes"@);
        lemma_below(middle, "volumes"@);
    }
}

proof fn lemma_shapes(k: int)
    requires
        0 <= k < 27,
    ensures
        is_shaped(k),
{
    if is_state(k) {
        lemma_state_shapes(k);
    } else {
        lemma_top_shapes(k);
    }
}

/// No path lies within the locations of two rules.
proof fn lemma_locations_are_disjoint(path: Seq<char>, j: int, k: int)
    requires
        0 <= j < 27,
        0 <= k < 27,
        path_within(path, protected_prefixes()[j].prefix),
        path_within(path, protected_prefixes()[k].prefix),
    ensures
        j == k,
{
    lemma_shapes(j);
    lemma_shapes(k);
    let c = components(path);
    let x = components(protected_prefixes()[j].prefix);
    let y = components(protected_prefixes()[k].prefix);
    assert(c.take(x.len() as int)[1] == x[1]);
    assert(c.take(y.len() as int)[1] == y[1]);
    assert(top_marks()[j] == top_marks()[k]);
    if is_state(j) && is_state(k) {
        assert(c.take(x.len() as int)[3] == x[3]);
        assert(c.take(y.len() as int)[3] == y[3]);
        assert(state_marks()[j - 13] == state_marks()[k - 13]);
    }
}

proof fn lemma_found_location(rules: Seq<RuleText>, k: int, path: Seq<char>)
    requires
        0 <= k < rules.len(),
        path_within(path, rules[k].prefix),
        forall|j: int|
            0 <= j < k ==> !path_within(path, (#[trigger] rules[j]).prefix),
    ensures
        first_location(rules, path) == Some(rules[k]),
    decreases k,
{
    if k > 0 {
        assert forall|j: int| 0 <= j < k - 1 implies !path_within(
            path,
            (#[trigger] rules.skip(1)[j]).prefix,
        ) by {
            assert(rules.skip(1)[j] == rules[j + 1]);
        }
        lemma_found_location(rules.skip(1), k - 1, path);
    }
}

proof fn lemma_no_location(rules: Seq<RuleText>, path: Seq<char>)
    requires
        forall|j: int|
            0 <= j < rules.len() ==> !path_within(path, (#[trigger] rules[j]).prefix),
    ensures
        first_location(rules, path) is None,
    decreases rules.len(),
{
    if rules.len() > 0 {
        assert forall|j: int| 0 <= j < rules.skip(1).len() implies !path_within(
            path,
            (#[trigger] rules.skip(1)[j]).prefix,
        ) by {
            assert(rules.skip(1)[j] == rules[j + 1]);
        }
        lemma_no_location(rules.skip(1), path);
    }
}

proof fn lemma_not_located(rules: Seq<RuleText>, path: Seq<char>, j: int)
    requires
        first_location(rules, path) is None,
        0 <= j < rules.len(),
    ensures
        !path_within(path, rules[j].prefix),
    decreases rules.len(),
{
    if j > 0 {
        lemma_not_located(rules.skip(1), path, j - 1);
    }
}

proof fn lemma_not_named(rules: Seq<RuleText>, path: Seq<char>, j: int)
    requires
        first_name(rules, path) is None,
        0 <= j < rules.len(),
    ensures
        !components(path).contains(rules[j].prefix),
    decreases rules.len(),
{
    if j > 0 {
        lemma_not_named(rules.skip(1), path, j - 1);
    }
}

proof fn lemma_found_name(rules: Seq<RuleText>, k: int, path: Seq<char>)
    requires
        0 <= k < rules.len(),
        components(path).contains(rules[k].prefix),
        forall|j: int|
            0 <= j < k ==> !components(path).contains((#[trigger] rules[j]).prefix),
    ensures
        first_name(rules, path) == Some(rules[k]),
    decreases k,
{
    if k > 0 {
        assert forall|j: int| 0 <= j < k - 1 implies !components(path).contains(
            (#[trigger] rules.skip(1)[j]).prefix,
        ) by {
            assert(rules.skip(1)[j] == rules[j + 1]);
        }
        lemma_found_name(rules.skip(1), k - 1, path);
    }
}

/// Whatever lies in a protected location is refused by the rule of that
/// location, and by no other: the location itself, too.
pub proof fn law_a_location_answers_by_its_own_rule(guard: Guard, k: int, path: Seq<char>)
    requires
        0 <= k < protected_prefixes().len(),
        absolute(path),
        path_within(path, protected_prefixes()[k].prefix),
        !components(path).contains(".."@),
    ensures
        guard_objection(guard, path) == Some(
            (protected_prefixes()[k].id, protected_prefixes()[k].reason),
        ),
{
    lemma_shapes(k);
    assert forall|j: int| 0 <= j < k implies !path_within(
        path,
        (#[trigger] protected_prefixes()[j]).prefix,
    ) by {
        if path_within(path, protected_prefixes()[j].prefix) {
            lemma_locations_are_disjoint(path, j, k);
        }
    }
    lemma_found_location(protected_prefixes(), k, path);
}

/// Each protected location is refused by the rule that lists it.
pub proof fn law_every_location_is_refused(guard: Guard, k: int)
    requires
        0 <= k < protected_prefixes().len(),
    ensures
        guard_objection(guard, protected_prefixes()[k].prefix) == Some(
            (protected_prefixes()[k].id, protected_prefixes()[k].reason),
        ),
{
    let path = protected_prefixes()[k].prefix;
    lemma_shapes(k);
    let c = components(path);
    assert(absolute(path)) by {
        lemma_absolute(k);
    }
    reveal_strlit("..");
    assert(!c.contains(".."@)) by {
        if c.contains(".."@) {
            let i = choose|i: int| 0 <= i < c.len() && c[i] == ".."@;
            assert(".."@.len() == 2 && ".."@[0] == '.');
            if i > 0 {
                assert(is_plain(c[i]));
            } else {
                assert(c[0].len() == 1);
            }
        }
    }
    crate::paths::law_within_is_reflexive(path);
    law_a_location_answers_by_its_own_rule(guard, k, path);
}

proof fn lemma_absolute(k: int)
    requires
        0 <= k < 27,
    ensures
        absolute(protected_prefixes()[k].prefix),
{
    reveal_strlit("/bin");
    reveal_strlit("/sbin");
    reveal_strlit("/lib");
    reveal_strlit("/lib32");
    reveal_strlit("/lib64");
    reveal_strlit("/usr");
    reveal_strlit("/boot");
    reveal_strlit("/efi");
    reveal_strlit("/proc");
    reveal_strlit("/sys");
    reveal_strlit("/dev");
    reveal_strlit("/run");
    reveal_strlit("/etc");
    reveal_strlit("/var/lib/dpkg");
    reveal_strlit("/var/lib/rpm");
    reveal_strlit("/var/lib/pacman");
    reveal_strlit("/var/lib/flatpak");
    reveal_strlit("/var/lib/snapd");
    reveal_strlit("/var/lib/mysql");
    reveal_strlit("/var/lib/postgresql");
    reveal_strlit("/var/lib/mongodb");
    reveal_strlit("/var/lib/influxdb");
    reveal_strlit("/var/lib/docker/volumes");
    reveal_strlit("/var/lib/containers/storage/volumes");
    reveal_strlit("/media");
    reveal_strlit("/mnt");
    reveal_strlit("/root");
}

/// The marks of the protected names.
spec fn name_marks() -> Seq<(char, char, nat)> {
    seq![
        ('.', 't', 4),
        ('.', 'g', 3),
        ('.', 'n', 4),
        ('.', 'h', 4),
        ('.', 'g', 6),
        ('.', 'e', 15),
    ]
}

proof fn lemma_name(k: int)
    requires
        0 <= k < 6,
    ensures
        mark(protected_names()[k].prefix) == name_marks()[k],
        !protected_names()[k].prefix.contains('/'),
{
    if k == 0 {
        reveal_strlit(".git");
    } else if k == 1 {
        reveal_strlit(".hg");
    } else if k == 2 {
        reveal_strlit(".svn");
    } else if k == 3 {
        reveal_strlit(".ssh");
    } else if k == 4 {
        reveal_strlit(".gnupg");
    } else {
        reveal_strlit(".password-store");
    }
}

/// A protected name is refused by the rule that lists it, in whatever
/// directory it stands that no built-in rule covers by itself.
pub proof fn law_every_name_is_refused(guard: Guard, k: int, base: Seq<char>)
    requires
        0 <= k < protected_names().len(),
        absolute(base),
        !components(base).contains(".."@),
        first_location(protected_prefixes(), base) is None,
        first_name(protected_names(), base) is None,
    ensures
        guard_objection(guard, joined(base, protected_names()[k].prefix)) == Some(
            (protected_names()[k].id, protected_names()[k].reason),
        ),
{
    let name = protected_names()[k].prefix;
    let path = joined(base, name);
    let b = components(base);
    lemma_name(k);
    assert(name != seq!['.']);
    law_join_adds_one_component(base, name);
    let c = components(path);
    assert(c == b.push(name));
    assert(b.len() >= 1);
    reveal_strlit("..");
    assert(!c.contains(".."@)) by {
        if c.contains(".."@) {
            let i = choose|i: int| 0 <= i < c.len() && c[i] == ".."@;
            if i < b.len() {
                assert(b[i] == ".."@);
            } else {
                assert(mark(".."@) == ('.', '.', 2nat));
            }
        }
    }
    assert forall|j: int| 0 <= j < protected_prefixes().len() implies !path_within(
        path,
        (#[trigger] protected_prefixes()[j]).prefix,
    ) by {
        let y = components(protected_prefixes()[j].prefix);
        if path_within(path, protected_prefixes()[j].prefix) {
            lemma_shapes(j);
            lemma_not_located(protected_prefixes(), base, j);
            if y.len() <= b.len() {
                assert(b.take(y.len() as int) =~= c.take(y.len() as int));
            } else {
                assert(c.take(y.len() as int)[y.len() - 1] == name);
                assert(is_plain(y[y.len() - 1]));
            }
        }
    }
    lemma_no_location(protected_prefixes(), path);
    assert(c[b.len() as int] == name);
    assert forall|j: int| 0 <= j < k implies !components(path).contains(
        (#[trigger] protected_names()[j]).prefix,
    ) by {
        lemma_not_named(protected_names(), base, j);
        lemma_name(j);
        let other = protected_names()[j].prefix;
        if c.contains(other) {
            let i = choose|i: int| 0 <= i < c.len() && c[i] == other;
            if i < b.len() {
                assert(b[i] == other);
            }
        }
    }
    lemma_found_name(protected_names(), k, path);
}

/// Every built-in rule has an identifier, and a reason that reads as a
/// sentence.
pub proof fn law_every_rule_explains_itself(k: int)
    requires
        0 <= k < (protected_prefixes() + protected_names()).len(),
    ensures
        (protected_prefixes() + protected_names()).len() > 20,
        (protected_prefixes() + protected_names())[k].id.len() > 0,
        (protected_prefixes() + protected_names())[k].reason.len() > 0,
        (protected_prefixes() + protected_names())[k].reason.last() == '.',
{
    reveal_strlit("system_binaries");
    reveal_strlit("System programs.");
    reveal_strlit("system_libraries");
    reveal_strlit("System libraries.");
    reveal_strlit("system_files");
    reveal_strlit("Installed software. Remove it with the package manager instead.");
    reveal_strlit("boot");
    reveal_strlit("Kernels and the bootloader. Old kernels are removed with the package manager.");
    reveal_strlit("The EFI system partition.");
    reveal_strlit("kernel_interface");
    reveal_strlit("A kernel interface, not stored data.");
    reveal_strlit("Device nodes.");
    reveal_strlit("runtime_state");
    reveal_strlit("Runtime state for running programs.");
    reveal_strlit("configuration");
    reveal_strlit("System configuration.");
    reveal_strlit("package_database");
    reveal_strlit("The package database.");
    reveal_strlit("Flatpak's installation. Remove apps with flatpak instead.");
    reveal_strlit("Snap's installation. Remove snaps with snap instead.");
    reveal_strlit("live_database");
    reveal_strlit("A database's live data.");
    reveal_strlit("container_volume");
    reveal_strlit("Container volumes hold data your containers expect to keep.");
    reveal_strlit("removable_media");
    reveal_strlit("Removable media.");
    reveal_strlit("mounted_volume");
    reveal_strlit("A volume you mounted yourself.");
    reveal_strlit("other_user");
    reveal_strlit("Another user's home directory.");
    reveal_strlit("version_control");
    reveal_strlit("Version control history.");
    reveal_strlit("credentials");
    reveal_strlit("SSH keys.");
    reveal_strlit("GPG keys.");
    reveal_strlit("Stored passwords.");
}

} // verus!
