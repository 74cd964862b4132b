//! Measured sizes, kept so that an upgrade can never bring back an old one.
use vstd::prelude::*;
use vstd::string::*;
use crate::error::{AppError, ErrorCode, Result};
use crate::order::{holds_last, last_value, lemma_holds_insert, lemma_holds_nothing, TextMap};
use crate::paths::{app_directory, cache_dir, home_of, join, joined, Environment};
use crate::space::Manager;
use crate::text::{begins, chars_of, opt_text, same_str, starts_with};
use super::Measured;

verus! {

broadcast use vstd::string::group_string_axioms;

/// The version of the stored form. Another one is discarded, not misread.
pub const STORE_VERSION: u32 = 1;

/// What a store writes and reads back.
#[derive(Debug, Clone)]
pub struct Stored {
    pub version: u32,
    pub entries: Vec<(String, Measured)>,
}

/// What a stored form holds, pair by pair.
pub open spec fn stored_pairs(v: Seq<(String, Measured)>) -> Seq<Option<(Seq<char>, Measured)>> {
    v.map_values(|e: (String, Measured)| Some((e.0@, e.1)))
}

/// The manager's part of a key.
pub open spec fn manager_prefix(m: Manager) -> Seq<char> {
    match m {
        Manager::Apt => "Apt/"@,
        Manager::Dnf => "Dnf/"@,
        Manager::Pacman => "Pacman/"@,
        Manager::Zypper => "Zypper/"@,
    }
}

/// A text with every `@` in it written as `%40`, every `/` as `%2F` and every
/// `%` as `%25`, so that neither `@` nor `/` is left.
pub open spec fn escaped(text: Seq<char>) -> Seq<char>
    decreases text.len(),
{
    if text.len() == 0 {
        text
    } else {
        escape_of(text[0]) + escaped(text.skip(1))
    }
}

/// How one character of an escaped text is written.
pub open spec fn escape_of(c: char) -> Seq<char> {
    if c == '@' {
        seq!['%', '4', '0']
    } else if c == '/' {
        seq!['%', '2', 'F']
    } else if c == '%' {
        seq!['%', '2', '5']
    } else {
        seq![c]
    }
}

/// The package's part of a key: the identity and the version with an `@`
/// between them. An identity that has an `@` in it would be cut short by
/// that, so it is written with its version in a form that has no `@`.
pub open spec fn package_key(id: Seq<char>, version: Seq<char>) -> Seq<char> {
    if id.contains('@') {
        escaped(id) + seq!['/'] + escaped(version)
    } else {
        id + seq!['@'] + version
    }
}

/// What a measurement is kept under: the manager, the package and its
/// version.
pub open spec fn store_key(m: Manager, id: Seq<char>, version: Seq<char>) -> Seq<char> {
    manager_prefix(m) + package_key(id, version)
}

/// Measured sizes by manager, package and version.
#[derive(Debug, Clone)]
pub struct MeasureStore {
    path: String,
    entries: TextMap<Measured>,
}

fn prefix(m: Manager) -> (r: &'static str)
    ensures
        r@ == manager_prefix(m),
{
    match m {
        Manager::Apt => "Apt/",
        Manager::Dnf => "Dnf/",
        Manager::Pacman => "Pacman/",
        Manager::Zypper => "Zypper/",
    }
}

/// Whether a text has an `@` in it.
fn has_separator(text: &str) -> (r: bool)
    ensures
        r == text@.contains('@'),
{
    let chars = chars_of(text);
    let mut i: usize = 0;
    while i < chars.len()
        invariant
            i <= chars@.len(),
            chars@ == text@,
            forall|k: int| 0 <= k < i ==> chars@[k] != '@',
        decreases chars@.len() - i,
    {
        if chars[i] == '@' {
            return true;
        }
        i = i + 1;
    }
    false
}

fn push_escaped(out: &mut String, text: &str)
    ensures
        final(out)@ == old(out)@ + escaped(text@),
{
    let ghost front = out@;
    let chars = chars_of(text);
    let mut i: usize = 0;
    assert(chars@.skip(0) =~= chars@);
    while i < chars.len()
        invariant
            i <= chars@.len(),
            out@ + escaped(chars@.skip(i as int)) =~= front + escaped(chars@),
        decreases chars@.len() - i,
    {
        let ghost before = out@;
        let c: char = chars[i];
        assert(chars@.skip(i as int)[0] == c);
        assert(chars@.skip(i as int).skip(1) =~= chars@.skip(i + 1));
        if c == '@' {
            out.append("%40");
        } else if c == '/' {
            out.append("%2F");
        } else if c == '%' {
            out.append("%25");
        } else {
            out.push(c);
        }
        proof {
            reveal_strlit("%40");
            reveal_strlit("%2F");
            reveal_strlit("%25");
        }
        assert(out@ =~= before + escape_of(c));
        assert(out@ + escaped(chars@.skip(i + 1)) =~= before + (escape_of(c) + escaped(
            chars@.skip(i + 1),
        )));
        i = i + 1;
    }
    assert(chars@.skip(i as int) =~= Seq::<char>::empty());
}

/// Whether a key is one of those of some installed packages.
pub open spec fn is_current(
    m: Manager,
    current: Seq<(String, String)>,
    key: Seq<char>,
) -> bool {
    exists|i: int|
        0 <= i < current.len() && key == store_key(m, (#[trigger] current[i]).0@, current[i].1@)
}

/// Whether a key stays when a manager's inventory is seen: it is another
/// manager's, or a package at its installed version.
pub open spec fn stays(m: Manager, current: Seq<(String, String)>, key: Seq<char>) -> bool {
    !begins(key, manager_prefix(m)) || is_current(m, current, key)
}

/// Whether a package is listed at a version.
pub open spec fn lists(current: Seq<(String, String)>, id: Seq<char>, version: Seq<char>) -> bool {
    exists|i: int|
        0 <= i < current.len() && (#[trigger] current[i]).0@ == id && current[i].1@ == version
}

/// Whether `after` is what is left of a store when a manager's inventory is
/// seen.
pub open spec fn retained(
    before: MeasureStore,
    m: Manager,
    current: Seq<(String, String)>,
    after: MeasureStore,
) -> bool {
    forall|key: Seq<char>| #[trigger]
        after.held(key) == if stays(m, current, key) {
            before.held(key)
        } else {
            None
        }
}

impl MeasureStore {
    /// The measurement under a key, if there is one.
    pub closed spec fn held(&self, key: Seq<char>) -> Option<Measured> {
        if self.entries.has(key) {
            Some(self.entries.value(key))
        } else {
            None
        }
    }

    /// The measurement of a package at a version, if there is one.
    pub open spec fn answer(&self, m: Manager, id: Seq<char>, version: Seq<char>) -> Option<
        Measured,
    > {
        self.held(store_key(m, id, version))
    }

    /// The keys that have a measurement.
    pub open spec fn keys(&self) -> Set<Seq<char>> {
        Set::new(|key: Seq<char>| self.held(key) is Some)
    }

    /// Whether the store is in order.
    pub closed spec fn wf(&self) -> bool {
        self.entries.wf()
    }

    /// Where the store is kept.
    pub closed spec fn place(&self) -> Seq<char> {
        self.path@
    }

    /// A store that is kept at a path, with what was read from there. What
    /// could not be read, or was written by another version, counts as
    /// nothing: a lost cache costs another measurement and never an error.
    pub fn at(path: String, stored: Option<Stored>) -> (r: Self)
        ensures
            r.wf(),
            r.place() == path@,
            forall|key: Seq<char>| #[trigger]
                r.held(key) == match stored {
                    Some(s) => if s.version == STORE_VERSION {
                        last_value(stored_pairs(s.entries@), key)
                    } else {
                        None
                    },
                    None => None,
                },
    {
        let mut entries: TextMap<Measured> = TextMap::new();
        if let Some(s) = stored {
            if s.version == STORE_VERSION {
                let ghost all = stored_pairs(s.entries@);
                let mut i: usize = 0;
                proof {
                    lemma_holds_nothing(entries, all.take(0));
                }
                while i < s.entries.len()
                    invariant
                        i <= s.entries@.len(),
                        all == stored_pairs(s.entries@),
                        holds_last(entries, all.take(i as int)),
                    decreases s.entries@.len() - i,
                {
                    let ghost before = entries;
                    let ghost next = all.take(i + 1);
                    assert(next.drop_last() =~= all.take(i as int));
                    entries.insert(s.entries[i].0.as_str(), s.entries[i].1);
                    proof {
                        lemma_holds_insert(
                            before,
                            entries,
                            next,
                            s.entries@[i as int].0@,
                            s.entries@[i as int].1,
                        );
                    }
                    i = i + 1;
                }
                assert(all.take(i as int) =~= all);
                let r = MeasureStore { path, entries };
                assert forall|key: Seq<char>| #[trigger] r.held(key) == last_value(all, key) by {
                    assert(entries.has(key) <==> last_value(all, key) is Some);
                }
                return r;
            }
        }
        MeasureStore { path, entries }
    }

    /// Where the store under the user's cache directory is kept.
    pub fn discover(env: &Environment) -> (r: Result<String>)
        ensures
            match app_directory(opt_text(env.cache_home), home_of(*env), ".cache"@) {
                Some(dir) => r matches Ok(p) && p@ == joined(dir, "measured-packages.json"@),
                None => {
                    &&& r matches Err(e)
                    &&& e.code == ErrorCode::Unsupported
                    &&& e.message@ == "Could not work out where to keep measured package sizes."@
                    &&& opt_text(e.remedy) == Some("Set HOME or XDG_CACHE_HOME and try again."@)
                    &&& e.cause is None
                    &&& e.path is None
                },
            },
    {
        match cache_dir(env) {
            Some(dir) => Ok(join(dir.as_str(), "measured-packages.json")),
            None => Err(
                AppError::new(
                    ErrorCode::Unsupported,
                    "Could not work out where to keep measured package sizes.".to_owned(),
                ).with_remedy("Set HOME or XDG_CACHE_HOME and try again."),
            ),
        }
    }

    fn key(manager: Manager, id: &str, version: &str) -> (r: String)
        ensures
            r@ == store_key(manager, id@, version@),
    {
        let mut out = prefix(manager).to_owned();
        if has_separator(id) {
            push_escaped(&mut out, id);
            out.push('/');
            push_escaped(&mut out, version);
        } else {
            out.append(id);
            out.push('@');
            out.append(version);
        }
        assert(out@ =~= store_key(manager, id@, version@));
        out
    }

    /// The measurement of exactly this package at exactly this version.
    pub fn get(&self, manager: Manager, id: &str, version: &str) -> (r: Option<Measured>)
        requires
            self.wf(),
        ensures
            r == self.answer(manager, id@, version@),
    {
        let key = MeasureStore::key(manager, id, version);
        match self.entries.get(key.as_str()) {
            Some(m) => Some(*m),
            None => None,
        }
    }

    /// Records a measurement, in place of an older one.
    pub fn put(&mut self, manager: Manager, id: &str, version: &str, measured: Measured)
        requires
            old(self).wf(),
        ensures
            final(self).wf(),
            final(self).place() == old(self).place(),
            final(self).answer(manager, id@, version@) == Some(measured),
            forall|m: Manager, other: Seq<char>, at: Seq<char>|
                (m, other, at) != (manager, id@, version@) ==> #[trigger] final(self).answer(
                    m,
                    other,
                    at,
                ) == old(self).answer(m, other, at),
            forall|other: Seq<char>|
                other != store_key(manager, id@, version@) ==> #[trigger] final(self).held(other)
                    == old(self).held(other),
            final(self).keys() == old(self).keys().insert(store_key(manager, id@, version@)),
    {
        let key = MeasureStore::key(manager, id, version);
        self.entries.insert(key.as_str(), measured);
        proof {
            assert forall|m: Manager, other: Seq<char>, at: Seq<char>|
                (m, other, at) != (manager, id@, version@) implies #[trigger] self.answer(
                m,
                other,
                at,
            ) == old(self).answer(m, other, at) by {
                if store_key(m, other, at) == store_key(manager, id@, version@) {
                    law_keys_tell_measurements_apart(m, other, at, manager, id@, version@);
                }
            }
            assert(self.keys() =~= old(self).keys().insert(store_key(manager, id@, version@)));
        }
    }

    /// How many measurements are held.
    pub fn len(&self) -> (r: usize)
        requires
            self.wf(),
        ensures
            r == self.keys().len(),
            self.keys().finite(),
    {
        proof {
            lemma_keys(*self);
        }
        self.entries.len()
    }

    /// Whether none is held.
    pub fn is_empty(&self) -> (r: bool)
        requires
            self.wf(),
        ensures
            r == (forall|key: Seq<char>| self.held(key) is None),
    {
        proof {
            if self.entries.pairs().len() > 0 {
                self.entries.lemma_value_at(0, self.entries.pairs()[0].0);
                assert(self.held(self.entries.pairs()[0].0) is Some);
            } else {
                assert forall|key: Seq<char>| self.held(key) is None by {}
            }
        }
        self.entries.is_empty()
    }

    /// Drops every measurement of a manager's packages that are no longer
    /// installed at that version, so that the store cannot grow without
    /// bound.
    pub fn retain_current(&mut self, manager: Manager, current: &Vec<(String, String)>)
        requires
            old(self).wf(),
        ensures
            final(self).wf(),
            final(self).place() == old(self).place(),
            retained(*old(self), manager, current@, *final(self)),
            forall|m: Manager, id: Seq<char>, version: Seq<char>| #[trigger]
                final(self).answer(m, id, version) == if m != manager || lists(
                    current@,
                    id,
                    version,
                ) {
                    old(self).answer(m, id, version)
                } else {
                    None
                },
            final(self).keys().subset_of(old(self).keys()),
            final(self).keys().len() <= old(self).keys().len(),
    {
        let ghost before = self.entries;
        let mut kept: TextMap<Measured> = TextMap::new();
        let mut i: usize = 0;
        while i < self.entries.len()
            invariant
                i <= self.entries.pairs().len(),
                self.entries == before,
                self.path == old(self).path,
                before.wf(),
                kept.wf(),
                forall|key: Seq<char>| #[trigger]
                    kept.has(key) <==> stays(manager, current@, key) && exists|k: int|
                        0 <= k < i && (#[trigger] before.pairs()[k]).0 == key,
                forall|key: Seq<char>| #[trigger]
                    kept.has(key) ==> before.has(key) && kept.value(key) == before.value(key),
            decreases self.entries.pairs().len() - i,
        {
            let ghost kept_before = kept;
            let (key, measured) = self.entries.entry(i);
            let chars = chars_of(key);
            let stay = !starts_with(chars.as_slice(), prefix(manager)) || currently(
                manager,
                current,
                key,
            );
            proof {
                before.lemma_value_at(i as int, key@);
            }
            if stay {
                kept.insert(key, *measured);
            }
            proof {
                assert forall|other: Seq<char>| #[trigger] kept.has(other) <==> stays(
                    manager,
                    current@,
                    other,
                ) && exists|k: int|
                    0 <= k < i + 1 && (#[trigger] before.pairs()[k]).0 == other by {
                    assert(kept_before.has(other) <==> stays(manager, current@, other) && exists|
                        k: int,
                    |
                        0 <= k < i && (#[trigger] before.pairs()[k]).0 == other);
                    if exists|k: int| 0 <= k < i + 1 && (#[trigger] before.pairs()[k]).0 == other {
                        let k = choose|k: int|
                            0 <= k < i + 1 && (#[trigger] before.pairs()[k]).0 == other;
                        if k < i {
                            assert(before.pairs()[k].0 == other);
                        }
                    }
                }
                assert forall|other: Seq<char>| #[trigger] kept.has(other) implies before.has(other)
                    && kept.value(other) == before.value(other) by {
                    if other != key@ {
                        assert(kept_before.has(other));
                    }
                }
            }
            i = i + 1;
        }
        self.entries = kept;
        proof {
            assert forall|key: Seq<char>| #[trigger] self.held(key) == if stays(
                manager,
                current@,
                key,
            ) {
                old(self).held(key)
            } else {
                None
            } by {
                assert(kept.has(key) <==> stays(manager, current@, key) && exists|k: int|
                    0 <= k < i && (#[trigger] before.pairs()[k]).0 == key);
            }
            assert forall|m: Manager, id: Seq<char>, version: Seq<char>| #[trigger]
                self.answer(m, id, version) == if m != manager || lists(current@, id, version) {
                old(self).answer(m, id, version)
            } else {
                None
            } by {
                lemma_stays(manager, current@, m, id, version);
            }
            lemma_keys(*old(self));
            lemma_keys(*self);
            assert forall|key: Seq<char>| self.keys().contains(key) implies old(
                self,
            ).keys().contains(key) by {
                assert(self.held(key) is Some);
            }
            vstd::set_lib::lemma_len_subset(self.keys(), old(self).keys());
        }
    }

    /// Where the store is kept.
    pub fn path(&self) -> (r: &str)
        ensures
            r@ == self.place(),
    {
        self.path.as_str()
    }

    /// What is to be written out.
    pub fn to_stored(&self) -> (r: Stored)
        requires
            self.wf(),
        ensures
            r.version == STORE_VERSION,
            forall|key: Seq<char>| #[trigger]
                last_value(stored_pairs(r.entries@), key) == self.held(key),
    {
        let mut entries: Vec<(String, Measured)> = Vec::new();
        let mut i: usize = 0;
        while i < self.entries.len()
            invariant
                i <= self.entries.pairs().len(),
                entries@.len() == i,
                forall|k: int|
                    0 <= k < i ==> (#[trigger] entries@[k]).0@ == self.entries.pairs()[k].0
                        && entries@[k].1 == self.entries.pairs()[k].1,
            decreases self.entries.pairs().len() - i,
        {
            let (key, measured) = self.entries.entry(i);
            entries.push((key.to_owned(), *measured));
            i = i + 1;
        }
        proof {
            assert forall|key: Seq<char>| #[trigger] last_value(stored_pairs(entries@), key)
                == self.held(key) by {
                lemma_written(self.entries, entries@, entries@.len() as int, key);
                assert(entries@.take(entries@.len() as int) =~= entries@);
                if self.entries.has(key) {
                    let c = choose|c: int|
                        0 <= c < self.entries.pairs().len() && (#[trigger] self.entries.pairs()[c]).0
                            == key;
                    assert(entries@[c].0@ == key);
                }
            }
        }
        Stored { version: STORE_VERSION, entries }
    }
}

proof fn lemma_written(m: TextMap<Measured>, v: Seq<(String, Measured)>, n: int, key: Seq<char>)
    requires
        m.wf(),
        v.len() == m.pairs().len(),
        forall|k: int|
            0 <= k < v.len() ==> (#[trigger] v[k]).0@ == m.pairs()[k].0 && v[k].1
                == m.pairs()[k].1,
        0 <= n <= v.len(),
    ensures
        last_value(stored_pairs(v.take(n)), key) is Some <==> exists|k: int|
            0 <= k < n && (#[trigger] m.pairs()[k]).0 == key,
        last_value(stored_pairs(v.take(n)), key) matches Some(x) ==> m.has(key) && x == m.value(key),
    decreases n,
{
    if n > 0 {
        lemma_written(m, v, n - 1, key);
        assert(stored_pairs(v.take(n)).drop_last() =~= stored_pairs(v.take(n - 1)));
        assert(stored_pairs(v.take(n)).last() == Some((v[n - 1].0@, v[n - 1].1)));
        if v[n - 1].0@ == key {
            m.lemma_value_at(n - 1, key);
            assert(last_value(stored_pairs(v.take(n)), key) == Some(v[n - 1].1));
        } else {
            assert(last_value(stored_pairs(v.take(n)), key) == last_value(
                stored_pairs(v.take(n - 1)),
                key,
            ));
        }
    } else {
        assert(stored_pairs(v.take(n)).len() == 0);
    }
}

/// Whether a key is one of those of some installed packages.
fn currently(manager: Manager, current: &Vec<(String, String)>, key: &str) -> (r: bool)
    ensures
        r == is_current(manager, current@, key@),
{
    let mut i: usize = 0;
    while i < current.len()
        invariant
            i <= current@.len(),
            forall|k: int|
                0 <= k < i ==> key@ != store_key(
                    manager,
                    (#[trigger] current@[k]).0@,
                    current@[k].1@,
                ),
        decreases current@.len() - i,
    {
        let live = MeasureStore::key(manager, current[i].0.as_str(), current[i].1.as_str());
        if same_str(live.as_str(), key) {
            assert(key@ == store_key(manager, current@[i as int].0@, current@[i as int].1@));
            return true;
        }
        i = i + 1;
    }
    false
}

/// There is one key for each measurement that is held.
proof fn lemma_keys(store: MeasureStore)
    requires
        store.wf(),
    ensures
        store.keys().finite(),
        store.keys().len() == store.entries.pairs().len(),
{
    let m = store.entries;
    let listed = m.pairs().map_values(|p: (Seq<char>, Measured)| p.0);
    assert forall|i: int, j: int| 0 <= i < listed.len() && 0 <= j < listed.len() && i != j implies
        listed[i] != listed[j] by {
        if listed[i] == listed[j] {
            m.lemma_one_place(i, j);
        }
    }
    listed.unique_seq_to_set();
    assert forall|key: Seq<char>| store.keys().contains(key) <==> listed.to_set().contains(
        key,
    ) by {
        if store.keys().contains(key) {
            assert(m.has(key));
            let k = m.spot(key);
            assert(listed[k] == key);
        }
        if listed.contains(key) {
            let k = choose|k: int| 0 <= k < listed.len() && listed[k] == key;
            assert(m.pairs()[k].0 == key);
            assert(m.has(key));
        }
    }
    assert(store.keys() =~= listed.to_set());
}

proof fn lemma_escaped_is_plain(id: Seq<char>)
    ensures
        !escaped(id).contains('@'),
        !escaped(id).contains('/'),
        id.len() > 0 ==> escaped(id).len() > 0,
    decreases id.len(),
{
    if id.len() > 0 {
        lemma_escaped_is_plain(id.skip(1));
        let front = escape_of(id[0]);
        let rest = escaped(id.skip(1));
        assert forall|i: int| 0 <= i < escaped(id).len() implies escaped(id)[i] != '@' && escaped(id)[i]
            != '/' by {
            if i < front.len() {
                assert(escaped(id)[i] == front[i]);
            } else {
                assert(escaped(id)[i] == rest[i - front.len()]);
                assert(rest.contains(rest[i - front.len()]));
            }
        }
    }
}

proof fn lemma_escaped_is_unique(a: Seq<char>, b: Seq<char>)
    requires
        escaped(a) == escaped(b),
    ensures
        a == b,
    decreases a.len(),
{
    lemma_escaped_is_plain(a);
    lemma_escaped_is_plain(b);
    if a.len() > 0 && b.len() > 0 {
        let x = escape_of(a[0]);
        let y = escape_of(b[0]);
        let whole = escaped(a);
        assert(whole[0] == x[0] && whole[0] == y[0]);
        if x.len() == 3 && y.len() == 3 {
            assert(whole[1] == x[1] && whole[1] == y[1]);
            assert(whole[2] == x[2] && whole[2] == y[2]);
        }
        assert(a[0] == b[0]);
        assert(whole.skip(x.len() as int) =~= escaped(a.skip(1)));
        assert(whole.skip(x.len() as int) =~= escaped(b.skip(1)));
        lemma_escaped_is_unique(a.skip(1), b.skip(1));
        assert forall|i: int| 0 <= i < a.len() implies a[i] == b[i] by {
            if i > 0 {
                assert(a[i] == a.skip(1)[i - 1]);
                assert(b[i] == b.skip(1)[i - 1]);
            }
        }
        assert(a.skip(1).len() == b.skip(1).len());
        assert(a =~= b);
    } else {
        assert(a =~= b);
    }
}

/// Exactly one manager, package and version answers under a key: where two
/// keys are equal, all three are. So an upgraded package never brings back an
/// old measurement, and managers do not share a namespace.
pub proof fn law_keys_tell_measurements_apart(
    a: Manager,
    id: Seq<char>,
    version: Seq<char>,
    b: Manager,
    other_id: Seq<char>,
    other_version: Seq<char>,
)
    requires
        store_key(a, id, version) == store_key(b, other_id, other_version),
    ensures
        a == b,
        id == other_id,
        version == other_version,
{
    reveal_strlit("Apt/");
    reveal_strlit("Dnf/");
    reveal_strlit("Pacman/");
    reveal_strlit("Zypper/");
    let x = store_key(a, id, version);
    let y = store_key(b, other_id, other_version);
    assert(x[0] == manager_prefix(a)[0]);
    assert(y[0] == manager_prefix(b)[0]);
    assert(a == b);
    let n = manager_prefix(a).len() as int;
    let p = package_key(id, version);
    let q = package_key(other_id, other_version);
    assert(x.skip(n) =~= p);
    assert(y.skip(n) =~= q);
    if !id.contains('@') && !other_id.contains('@') {
        lemma_first_separator(id, version, other_id, other_version, '@');
    } else if id.contains('@') && other_id.contains('@') {
        lemma_escaped_is_plain(id);
        lemma_escaped_is_plain(other_id);
        lemma_first_separator(
            escaped(id),
            escaped(version),
            escaped(other_id),
            escaped(other_version),
            '/',
        );
        lemma_escaped_is_unique(id, other_id);
        lemma_escaped_is_unique(version, other_version);
    } else if id.contains('@') {
        lemma_escaped_key_is_plain(id, version);
        assert(q[other_id.len() as int] == '@');
        assert(p.contains('@'));
    } else {
        lemma_escaped_key_is_plain(other_id, other_version);
        assert(p[id.len() as int] == '@');
        assert(q.contains('@'));
    }
}

proof fn lemma_escaped_key_is_plain(id: Seq<char>, version: Seq<char>)
    requires
        id.contains('@'),
    ensures
        !package_key(id, version).contains('@'),
{
    let e = escaped(id);
    let f = escaped(version);
    let key = package_key(id, version);
    lemma_escaped_is_plain(id);
    lemma_escaped_is_plain(version);
    assert forall|i: int| 0 <= i < key.len() implies key[i] != '@' by {
        if i < e.len() {
            assert(key[i] == e[i]);
            assert(e.contains(e[i]));
        } else if i > e.len() {
            assert(key[i] == f[i - e.len() - 1]);
            assert(f.contains(f[i - e.len() - 1]));
        }
    }
}

/// The first separator parts a text in one way.
proof fn lemma_first_separator(
    a: Seq<char>,
    b: Seq<char>,
    c: Seq<char>,
    d: Seq<char>,
    separator: char,
)
    requires
        a + seq![separator] + b == c + seq![separator] + d,
        !a.contains(separator),
        !c.contains(separator),
    ensures
        a == c,
        b == d,
{
    let x = a + seq![separator] + b;
    let y = c + seq![separator] + d;
    assert(x[a.len() as int] == separator);
    assert(y[c.len() as int] == separator);
    if a.len() < c.len() {
        assert(y[a.len() as int] == c[a.len() as int]);
        assert(c.contains(c[a.len() as int]));
    }
    if c.len() < a.len() {
        assert(x[c.len() as int] == a[c.len() as int]);
        assert(a.contains(a[c.len() as int]));
    }
    assert(x.take(a.len() as int) =~= a);
    assert(y.take(c.len() as int) =~= c);
    assert(x.skip(a.len() as int + 1) =~= b);
    assert(y.skip(c.len() as int + 1) =~= d);
}

proof fn lemma_stays(
    manager: Manager,
    current: Seq<(String, String)>,
    m: Manager,
    id: Seq<char>,
    version: Seq<char>,
)
    ensures
        stays(manager, current, store_key(m, id, version)) == (m != manager || lists(
            current,
            id,
            version,
        )),
{
    reveal_strlit("Apt/");
    reveal_strlit("Dnf/");
    reveal_strlit("Pacman/");
    reveal_strlit("Zypper/");
    let key = store_key(m, id, version);
    assert(key[0] == manager_prefix(m)[0]);
    if m == manager {
        assert(key.take(manager_prefix(m).len() as int) =~= manager_prefix(m));
        if is_current(manager, current, key) {
            let i = choose|i: int|
                0 <= i < current.len() && key == store_key(
                    manager,
                    (#[trigger] current[i]).0@,
                    current[i].1@,
                );
            law_keys_tell_measurements_apart(
                manager,
                current[i].0@,
                current[i].1@,
                m,
                id,
                version,
            );
            assert(current[i].0@ == id);
        }
        if lists(current, id, version) {
            let i = choose|i: int|
                0 <= i < current.len() && (#[trigger] current[i]).0@ == id && current[i].1@
                    == version;
            assert(key == store_key(manager, current[i].0@, current[i].1@));
        }
    } else if begins(key, manager_prefix(manager)) {
        assert(key.take(manager_prefix(manager).len() as int)[0] == manager_prefix(manager)[0]);
    }
}

/// A package whose identity has no `@` in it is kept under the manager, the
/// identity and the version as they stand.
pub proof fn law_ordinary_keys_are_spelled_out(m: Manager, id: Seq<char>, version: Seq<char>)
    requires
        !id.contains('@'),
    ensures
        store_key(m, id, version) == manager_prefix(m) + id + seq!['@'] + version,
{
    assert(store_key(m, id, version) =~= manager_prefix(m) + id + seq!['@'] + version);
}

/// Seeing the same inventory a second time changes nothing.
pub proof fn law_retaining_twice_changes_nothing(
    before: MeasureStore,
    m: Manager,
    current: Seq<(String, String)>,
    once: MeasureStore,
    twice: MeasureStore,
    key: Seq<char>,
)
    requires
        retained(before, m, current, once),
        retained(once, m, current, twice),
    ensures
        twice.held(key) == once.held(key),
{
    assert(twice.held(key) == if stays(m, current, key) {
        once.held(key)
    } else {
        None
    });
    assert(once.held(key) == if stays(m, current, key) {
        before.held(key)
    } else {
        None
    });
}

/// What is written out reads back: a store made from what another one wrote
/// holds the same measurements.
pub proof fn law_written_stores_read_back(
    written: MeasureStore,
    stored: Stored,
    read: MeasureStore,
    key: Seq<char>,
)
    requires
        stored.version == STORE_VERSION,
        forall|k: Seq<char>| #[trigger]
            last_value(stored_pairs(stored.entries@), k) == written.held(k),
        forall|k: Seq<char>| #[trigger]
            read.held(k) == last_value(stored_pairs(stored.entries@), k),
    ensures
        read.held(key) == written.held(key),
{
    assert(read.held(key) == last_value(stored_pairs(stored.entries@), key));
}

} // verus!
