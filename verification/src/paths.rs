//! File paths as text, and the base directories that this program keeps its
//! own files in.
use vstd::prelude::*;
use vstd::string::*;
use crate::text::{chars_of, lemma_split_nonempty, is_char, opt_text, pieces, same, split_on, string_of, views};

verus! {

broadcast use vstd::string::group_string_axioms;

/// The directory of this program under each base directory.
pub const APP: &'static str = "nix";

/// Whether a path starts at the root of the filesystem.
pub open spec fn absolute(path: Seq<char>) -> bool {
    path.len() > 0 && path[0] == '/'
}

/// The pieces of a path that name something: neither empty nor a lone dot.
pub open spec fn named(p: Seq<Seq<char>>) -> Seq<Seq<char>>
    decreases p.len(),
{
    if p.len() == 0 {
        p
    } else if p.last().len() == 0 || p.last() == seq!['.'] {
        named(p.drop_last())
    } else {
        named(p.drop_last()).push(p.last())
    }
}

/// What a path starts with, before the names in it: the root, or the current
/// directory where a relative path spells it out.
pub open spec fn anchor(path: Seq<char>) -> Seq<Seq<char>> {
    if absolute(path) {
        seq![seq!['/']]
    } else if pieces(path, '/')[0] == seq!['.'] {
        seq![seq!['.']]
    } else {
        Seq::empty()
    }
}

/// The components of a path. Repeated and trailing slashes do not count, nor
/// does a dot anywhere but at the start of a relative path.
pub open spec fn components(path: Seq<char>) -> Seq<Seq<char>> {
    anchor(path) + named(pieces(path, '/'))
}

/// Whether `path` is `prefix` or lies below it, by whole components.
pub open spec fn path_within(path: Seq<char>, prefix: Seq<char>) -> bool {
    let p = components(path);
    let q = components(prefix);
    q.len() <= p.len() && p.take(q.len() as int) == q
}

/// `base` with `rest` below it; `rest` alone where that is absolute.
pub open spec fn joined(base: Seq<char>, rest: Seq<char>) -> Seq<char> {
    if absolute(rest) {
        rest
    } else if base.len() == 0 || base.last() == '/' {
        base + rest
    } else {
        base.push('/') + rest
    }
}

/// Whether a path starts at the root of the filesystem.
pub fn is_absolute(path: &[char]) -> (r: bool)
    ensures
        r == absolute(path@),
{
    path.len() > 0 && path[0] == '/'
}

/// The components of a path.
pub fn split_components<'a>(path: &'a [char]) -> (r: Vec<&'a [char]>)
    ensures
        views(r@) == components(path@),
{
    let parts = split_on(path, '/');
    let ghost p = views(parts@);
    let mut out: Vec<&'a [char]> = Vec::new();
    if is_absolute(path) {
        out.push(vstd::slice::slice_subrange(path, 0, 1));
        assert(out@[0]@ =~= seq!['/']);
    } else if parts[0].len() == 1 && parts[0][0] == '.' {
        assert(p[0] == parts@[0]@);
        assert(p[0] =~= seq!['.']);
        out.push(parts[0]);
    } else {
        assert(p[0] == parts@[0]@);
        assert(p[0] != seq!['.']) by {
            if p[0] == seq!['.'] {
                assert(p[0].len() == 1 && p[0][0] == '.');
            }
        }
    }
    assert(views(out@) =~= anchor(path@));
    let mut i: usize = 0;
    assert(named(p.take(0)) =~= Seq::<Seq<char>>::empty());
    assert(views(out@) =~= anchor(path@) + named(p.take(0)));
    while i < parts.len()
        invariant
            i <= parts@.len(),
            p == views(parts@),
            views(out@) == anchor(path@) + named(p.take(i as int)),
        decreases parts@.len() - i,
    {
        assert(p.take(i + 1).drop_last() =~= p.take(i as int));
        let part = parts[i];
        assert(p.take(i + 1).last() == part@);
        let dot = part.len() == 1 && part[0] == '.';
        assert(dot == (part@ == seq!['.'])) by {
            if dot {
                assert(part@ =~= seq!['.']);
            }
        }
        if part.len() > 0 && !dot {
            let ghost before = views(out@);
            out.push(part);
            assert(views(out@) =~= before.push(part@));
            assert(anchor(path@) + named(p.take(i + 1)) =~= before.push(part@));
        }
        i = i + 1;
    }
    assert(p.take(i as int) =~= p);
    out
}

/// Whether `path` is `prefix` or lies below it, by whole components.
pub fn is_within(path: &[char], prefix: &[char]) -> (r: bool)
    ensures
        r == path_within(path@, prefix@),
{
    let p = split_components(path);
    let q = split_components(prefix);
    if q.len() > p.len() {
        assert(views(q@).len() > views(p@).len());
        return false;
    }
    let mut i: usize = 0;
    while i < q.len()
        invariant
            i <= q@.len() <= p@.len(),
            views(p@) == components(path@),
            views(q@) == components(prefix@),
            forall|k: int| 0 <= k < i ==> views(p@)[k] == views(q@)[k],
        decreases q@.len() - i,
    {
        if !same(p[i], q[i]) {
            assert(components(path@).take(q@.len() as int)[i as int] == views(p@)[i as int]);
            return false;
        }
        assert(views(p@)[i as int] == views(q@)[i as int]);
        i = i + 1;
    }
    assert(components(path@).take(q@.len() as int) =~= components(prefix@));
    true
}

/// `base` with `rest` below it; `rest` alone where that is absolute.
pub fn join(base: &str, rest: &str) -> (r: String)
    ensures
        r@ == joined(base@, rest@),
{
    let rest_chars = chars_of(rest);
    if is_absolute(rest_chars.as_slice()) {
        return rest.to_owned();
    }
    let base_chars = chars_of(base);
    let mut out = base.to_owned();
    let n: usize = base_chars.len();
    if n > 0 && base_chars[n - 1] != '/' {
        out.push('/');
    }
    out.append(rest);
    out
}

/// Whether a component names something, and is not the root, the current or
/// the parent directory.
pub open spec fn names_something(component: Seq<char>) -> bool {
    component != seq!['/'] && component != seq!['.'] && component != seq!['.', '.']
}

/// The component at a place counted from the end, where it names something.
pub open spec fn name_from_end(path: Seq<char>, back: int) -> Option<Seq<char>> {
    let c = components(path);
    if c.len() > back && names_something(c[c.len() - 1 - back]) {
        Some(c[c.len() - 1 - back])
    } else {
        None
    }
}

/// The name of what a path leads to.
pub open spec fn file_name_of(path: Seq<char>) -> Option<Seq<char>> {
    name_from_end(path, 0)
}

/// The name of the directory that a path leads into.
pub open spec fn parent_name_of(path: Seq<char>) -> Option<Seq<char>> {
    name_from_end(path, 1)
}

fn name_back(path: &str, back: usize) -> (r: Option<String>)
    requires
        back <= 1,
    ensures
        opt_text(r) == name_from_end(path@, back as int),
{
    let chars = chars_of(path);
    let parts = split_components(chars.as_slice());
    assert(views(parts@).len() == parts@.len());
    if parts.len() <= back {
        return None;
    }
    let at: usize = parts.len() - 1 - back;
    let part = parts[at];
    assert(components(path@)[at as int] == part@);
    let single = part.len() == 1 && (part[0] == '/' || part[0] == '.');
    let double = part.len() == 2 && part[0] == '.' && part[1] == '.';
    assert(single == (part@ == seq!['/'] || part@ == seq!['.'])) by {
        if single {
            assert(part@ =~= seq![part@[0]]);
        }
    }
    assert(double == (part@ == seq!['.', '.'])) by {
        if double {
            assert(part@ =~= seq!['.', '.']);
        }
    }
    if single || double {
        None
    } else {
        Some(string_of(part))
    }
}

/// The name of what a path leads to.
pub fn file_name(path: &str) -> (r: Option<String>)
    ensures
        opt_text(r) == file_name_of(path@),
{
    name_back(path, 0)
}

/// The name of the directory that a path leads into.
pub fn parent_name(path: &str) -> (r: Option<String>)
    ensures
        opt_text(r) == parent_name_of(path@),
{
    name_back(path, 1)
}

/// What the environment says of where a user's files are.
#[derive(Debug, Clone, PartialEq, Eq)]
pub struct Environment {
    /// `HOME`.
    pub home: Option<String>,
    /// `XDG_CONFIG_HOME`.
    pub config_home: Option<String>,
    /// `XDG_STATE_HOME`.
    pub state_home: Option<String>,
    /// `XDG_CACHE_HOME`.
    pub cache_home: Option<String>,
}

/// A base directory. Its variable counts only where it holds an absolute
/// path; otherwise it is the default below the home directory.
pub open spec fn base_directory(
    var: Option<Seq<char>>,
    home: Option<Seq<char>>,
    fallback: Seq<char>,
) -> Option<Seq<char>> {
    match var {
        Some(v) if absolute(v) => Some(v),
        _ => match home {
            Some(h) => Some(joined(h, fallback)),
            None => None,
        },
    }
}

/// This program's directory under a base directory.
pub open spec fn app_directory(
    var: Option<Seq<char>>,
    home: Option<Seq<char>>,
    fallback: Seq<char>,
) -> Option<Seq<char>> {
    match base_directory(var, home, fallback) {
        Some(base) => Some(joined(base, APP@)),
        None => None,
    }
}

/// The home directory, where the environment names one.
pub open spec fn home_of(env: Environment) -> Option<Seq<char>> {
    match env.home {
        Some(h) if h@.len() > 0 => Some(h@),
        _ => None,
    }
}

/// The text of an optional string slice.
pub open spec fn opt_str(s: Option<&str>) -> Option<Seq<char>> {
    match s {
        Some(t) => Some(t@),
        None => None,
    }
}

/// This program's directory under a base directory, from the raw values.
pub fn resolve(var: Option<&str>, home: Option<&str>, fallback: &str) -> (r: Option<String>)
    ensures
        opt_text(r) == app_directory(opt_str(var), opt_str(home), fallback@),
{
    match base_dir(var, home, fallback) {
        Some(base) => Some(join(base.as_str(), APP)),
        None => None,
    }
}

/// A base directory itself, from the raw values.
pub fn base_dir(var: Option<&str>, home: Option<&str>, fallback: &str) -> (r: Option<String>)
    ensures
        opt_text(r) == base_directory(opt_str(var), opt_str(home), fallback@),
{
    if let Some(v) = var {
        let chars = chars_of(v);
        if is_absolute(chars.as_slice()) {
            return Some(v.to_owned());
        }
    }
    match home {
        Some(h) => Some(join(h, fallback)),
        None => None,
    }
}

fn as_str_opt<'a>(s: &'a Option<String>) -> (r: Option<&'a str>)
    ensures
        opt_str(r) == opt_text(*s),
{
    match s {
        Some(t) => Some(t.as_str()),
        None => None,
    }
}

/// The user's home directory, where the environment names one.
pub fn home_dir<'a>(env: &'a Environment) -> (r: Option<&'a str>)
    ensures
        opt_str(r) == home_of(*env),
{
    match &env.home {
        Some(h) => if h.as_str().is_empty() {
            None
        } else {
            Some(h.as_str())
        },
        None => None,
    }
}

/// Where settings live.
pub fn config_dir(env: &Environment) -> (r: Option<String>)
    ensures
        opt_text(r) == app_directory(opt_text(env.config_home), home_of(*env), ".config"@),
{
    resolve(as_str_opt(&env.config_home), home_dir(env), ".config")
}

/// The base directory for settings, which the desktop owns.
pub fn config_home(env: &Environment) -> (r: Option<String>)
    ensures
        opt_text(r) == base_directory(opt_text(env.config_home), home_of(*env), ".config"@),
{
    base_dir(as_str_opt(&env.config_home), home_dir(env), ".config")
}

/// Where logs and growth history live.
pub fn state_dir(env: &Environment) -> (r: Option<String>)
    ensures
        opt_text(r) == app_directory(opt_text(env.state_home), home_of(*env), ".local/state"@),
{
    resolve(as_str_opt(&env.state_home), home_dir(env), ".local/state")
}

/// Where the scan cache lives.
pub fn cache_dir(env: &Environment) -> (r: Option<String>)
    ensures
        opt_text(r) == app_directory(opt_text(env.cache_home), home_of(*env), ".cache"@),
{
    resolve(as_str_opt(&env.cache_home), home_dir(env), ".cache")
}

/// Lying below is transitive: what is below something below `outer` is below
/// `outer`.
pub proof fn law_within_is_transitive(path: Seq<char>, middle: Seq<char>, outer: Seq<char>)
    requires
        path_within(path, middle),
        path_within(middle, outer),
    ensures
        path_within(path, outer),
{
    let p = components(path);
    let m = components(middle);
    let o = components(outer);
    assert(p.take(o.len() as int) =~= p.take(m.len() as int).take(o.len() as int));
}

/// Every path lies within itself.
pub proof fn law_within_is_reflexive(path: Seq<char>)
    ensures
        path_within(path, path),
{
    let p = components(path);
    assert(p.take(p.len() as int) =~= p);
}

/// Splitting around one separator more: the pieces before it, then those
/// after it.
pub proof fn lemma_pieces_join(a: Seq<char>, sep: char, b: Seq<char>)
    ensures
        pieces(a.push(sep) + b, sep) == pieces(a, sep) + pieces(b, sep),
    decreases b.len(),
{
    let f = is_char(sep);
    if b.len() == 0 {
        assert(a.push(sep) + b =~= a.push(sep));
        assert(a.push(sep).drop_last() =~= a);
        assert(pieces(a.push(sep), sep) =~= pieces(a, sep) + pieces(b, sep));
    } else {
        lemma_pieces_join(a, sep, b.drop_last());
        lemma_split_nonempty(b.drop_last(), f);
        let whole = a.push(sep) + b;
        assert(whole.drop_last() =~= a.push(sep) + b.drop_last());
        assert(whole.last() == b.last());
        let left = pieces(a, sep);
        let right = pieces(b.drop_last(), sep);
        assert((left + right).last() == right.last());
        assert((left + right).drop_last() =~= left + right.drop_last());
        assert(pieces(whole, sep) =~= left + pieces(b, sep));
    }
}

/// The named pieces of two runs of pieces.
pub proof fn lemma_named_concat(p: Seq<Seq<char>>, q: Seq<Seq<char>>)
    ensures
        named(p + q) == named(p) + named(q),
    decreases q.len(),
{
    if q.len() == 0 {
        assert(p + q =~= p);
        assert(named(p) + named(q) =~= named(p));
    } else {
        assert((p + q).drop_last() =~= p + q.drop_last());
        lemma_named_concat(p, q.drop_last());
        assert(named(p + q) =~= named(p) + named(q));
    }
}

/// A text without the separator is one piece.
pub proof fn lemma_pieces_single(s: Seq<char>, sep: char)
    requires
        !s.contains(sep),
    ensures
        pieces(s, sep) == seq![s],
    decreases s.len(),
{
    if s.len() > 0 {
        assert(s.last() != sep) by {
            assert(s.contains(s.last()));
        }
        assert forall|c: char| s.drop_last().contains(c) implies s.contains(c) by {
            let k = choose|k: int| 0 <= k < s.drop_last().len() && s.drop_last()[k] == c;
            assert(s[k] == c);
        }
        lemma_pieces_single(s.drop_last(), sep);
        assert(s.drop_last().push(s.last()) =~= s);
        assert(pieces(s, sep) =~= seq![s]);
    } else {
        assert(s =~= Seq::<char>::empty());
    }
}

/// Joining an absolute path and a plain name adds one component, the name.
pub proof fn law_join_adds_one_component(base: Seq<char>, name: Seq<char>)
    requires
        absolute(base),
        name.len() > 0,
        !name.contains('/'),
        name != seq!['.'],
    ensures
        components(joined(base, name)) == components(base).push(name),
        path_within(joined(base, name), base),
        absolute(joined(base, name)),
{
    assert(!absolute(name)) by {
        if absolute(name) {
            assert(name.contains(name[0]));
        }
    }
    lemma_pieces_single(name, '/');
    assert(named(seq![name]) =~= seq![name]) by {
        assert(seq![name].drop_last() =~= Seq::<Seq<char>>::empty());
        assert(named(Seq::<Seq<char>>::empty()) =~= Seq::<Seq<char>>::empty());
    }
    if base.last() == '/' {
        let shorter = base.drop_last();
        assert(shorter.push('/') =~= base);
        lemma_pieces_join(shorter, '/', name);
        lemma_named_concat(pieces(shorter, '/'), seq![name]);
        assert(pieces(base, '/') == pieces(shorter, '/').push(Seq::<char>::empty()));
        assert(pieces(base, '/').drop_last() =~= pieces(shorter, '/'));
        assert(named(pieces(base, '/')) == named(pieces(shorter, '/')));
    } else {
        lemma_pieces_join(base, '/', name);
        lemma_named_concat(pieces(base, '/'), seq![name]);
    }
    assert(components(joined(base, name)) =~= components(base).push(name));
    assert(components(base).push(name).take(components(base).len() as int) =~= components(base));
}

/// This program's own settings directory lies below the base directory that
/// the desktop owns, and is never that directory itself.
pub proof fn law_own_directory_is_below_the_base(env: Environment)
    requires
        base_directory(opt_text(env.config_home), home_of(env), ".config"@) matches Some(base)
            && absolute(base),
    ensures
        ({
            let base = base_directory(opt_text(env.config_home), home_of(env), ".config"@)->0;
            let own = app_directory(opt_text(env.config_home), home_of(env), ".config"@)->0;
            &&& app_directory(opt_text(env.config_home), home_of(env), ".config"@) is Some
            &&& components(own) == components(base).push(APP@)
            &&& path_within(own, base)
            &&& own != base
        }),
{
    let base = base_directory(opt_text(env.config_home), home_of(env), ".config"@)->0;
    reveal_strlit("nix");
    assert(APP@ =~= seq!['n', 'i', 'x']);
    assert(APP@ != seq!['.']) by {
        assert(seq!['.'].len() == 1);
    }
    law_join_adds_one_component(base, APP@);
    if joined(base, APP@) == base {
        assert(components(base).len() == components(base).push(APP@).len());
    }
}

/// A base directory is the one that the environment names, where it names an
/// absolute one, and otherwise the usual one in the home directory; without
/// either there is none.
pub proof fn law_only_an_absolute_directory_is_taken(
    var: Option<Seq<char>>,
    home: Option<Seq<char>>,
    fallback: Seq<char>,
)
    ensures
        var matches Some(v) ==> v.len() > 0 && v[0] == '/' ==> base_directory(var, home, fallback)
            == Some(v),
        !(var matches Some(v) && v.len() > 0 && v[0] == '/') ==> match home {
            Some(h) => base_directory(var, home, fallback) == Some(joined(h, fallback)),
            None => base_directory(var, home, fallback) is None,
        },
        base_directory(var, home, fallback) is None ==> app_directory(var, home, fallback) is None,
        base_directory(var, home, fallback) matches Some(b) ==> app_directory(var, home, fallback)
            == Some(joined(b, "nix"@)),
{
}

/// A path's name is what was joined to it last, and its parent's what was
/// joined before.
pub proof fn law_a_name_is_what_was_joined_last(
    base: Seq<char>,
    parent: Seq<char>,
    name: Seq<char>,
)
    requires
        absolute(base),
        parent.len() > 0 && !parent.contains('/') && parent != seq!['.'] && parent != seq![
            '.',
            '.',
        ],
        name.len() > 0 && !name.contains('/') && name != seq!['.'] && name != seq!['.', '.'],
    ensures
        file_name_of(joined(joined(base, parent), name)) == Some(name),
        parent_name_of(joined(joined(base, parent), name)) == Some(parent),
{
    law_join_adds_one_component(base, parent);
    law_join_adds_one_component(joined(base, parent), name);
    let c = components(joined(joined(base, parent), name));
    assert(c == components(base).push(parent).push(name));
    assert(name != seq!['/']) by {
        if name == seq!['/'] {
            assert(name[0] == '/');
            assert(name.contains(name[0]));
        }
    }
    assert(parent != seq!['/']) by {
        if parent == seq!['/'] {
            assert(parent[0] == '/');
            assert(parent.contains(parent[0]));
        }
    }
    assert(c[c.len() - 1] == name && c[c.len() - 2] == parent);
}

/// A path lies within a directory by whole names: what is joined to a
/// directory lies within it, and a longer name beside it does not.
pub proof fn law_a_longer_name_is_another_directory(
    base: Seq<char>,
    name: Seq<char>,
    other: Seq<char>,
)
    requires
        absolute(base),
        name.len() > 0 && !name.contains('/') && name != seq!['.'],
        other.len() > 0 && !other.contains('/') && other != seq!['.'],
    ensures
        path_within(joined(base, name), base),
        !path_within(base, joined(base, name)),
        path_within(joined(base, other), joined(base, name)) == (other == name),
{
    law_join_adds_one_component(base, name);
    law_join_adds_one_component(base, other);
    let n = components(base).len() as int;
    let a = components(base).push(name);
    let b = components(base).push(other);
    if path_within(joined(base, other), joined(base, name)) {
        assert(b.take(n + 1)[n] == a[n]);
    }
    if other == name {
        law_within_is_reflexive(joined(base, name));
    }
}

/// Settings, state and cache are kept in this program's own directory below
/// the one that the environment names for each, and below the usual place for
/// each in the home directory where it names none.
pub proof fn law_each_kind_of_file_has_its_own_directory(
    env: Environment,
    config: Option<String>,
    state: Option<String>,
    cache: Option<String>,
)
    requires
        call_ensures(config_dir, (&env,), config),
        call_ensures(state_dir, (&env,), state),
        call_ensures(cache_dir, (&env,), cache),
    ensures
        env.home matches Some(h) ==> h@.len() > 0 ==> {
            &&& env.config_home is None ==> opt_text(config) == Some(
                joined(joined(h@, ".config"@), "nix"@),
            )
            &&& env.state_home is None ==> opt_text(state) == Some(
                joined(joined(h@, ".local/state"@), "nix"@),
            )
            &&& env.cache_home is None ==> opt_text(cache) == Some(
                joined(joined(h@, ".cache"@), "nix"@),
            )
        },
        env.config_home matches Some(d) ==> absolute(d@) ==> opt_text(config) == Some(
            joined(d@, "nix"@),
        ),
        env.state_home matches Some(d) ==> absolute(d@) ==> opt_text(state) == Some(
            joined(d@, "nix"@),
        ),
        env.cache_home matches Some(d) ==> absolute(d@) ==> opt_text(cache) == Some(
            joined(d@, "nix"@),
        ),
{
}

/// Repeated and trailing slashes, and a lone dot, name nothing: a path with one
/// more is the same path.
pub proof fn law_slashes_and_dots_name_nothing(path: Seq<char>)
    requires
        absolute(path),
    ensures
        components(path.push('/')) == components(path),
        components(path.push('/').push('/')) == components(path),
        components(path.push('/').push('.')) == components(path),
{
    let none = Seq::<char>::empty();
    let dot = seq!['.'];
    lemma_pieces_single(none, '/');
    lemma_nothing_named(none);
    lemma_nothing_named(dot);
    assert(path.push('/') + none =~= path.push('/'));
    lemma_pieces_join(path, '/', none);
    lemma_named_concat(pieces(path, '/'), seq![none]);
    assert(components(path.push('/')) =~= components(path));
    let more = path.push('/');
    assert(more.push('/') + none =~= more.push('/'));
    lemma_pieces_join(more, '/', none);
    lemma_named_concat(pieces(more, '/'), seq![none]);
    assert(components(more.push('/')) =~= components(path));
    assert(!dot.contains('/')) by {
        if dot.contains('/') {
            let i = choose|i: int| 0 <= i < dot.len() && dot[i] == '/';
            assert(dot[i] == '.');
        }
    }
    lemma_pieces_single(dot, '/');
    assert(path.push('/') + dot =~= path.push('/').push('.'));
    lemma_pieces_join(path, '/', dot);
    lemma_named_concat(pieces(path, '/'), seq![dot]);
    assert(components(path.push('/').push('.')) =~= components(path));
}

proof fn lemma_nothing_named(piece: Seq<char>)
    requires
        piece.len() == 0 || piece == seq!['.'],
    ensures
        named(seq![piece]) == Seq::<Seq<char>>::empty(),
{
    assert(seq![piece].drop_last() =~= Seq::<Seq<char>>::empty());
    assert(seq![piece].last() == piece);
    assert(named(Seq::<Seq<char>>::empty()) =~= Seq::<Seq<char>>::empty());
}

} // verus!
