//! Ordering: texts by their characters, a stable sort, and a map whose keys
//! are texts in order.
use vstd::prelude::*;
use crate::text::chars_of;

verus! {

broadcast use vstd::string::group_string_axioms;

/// Whether text `a` comes strictly before text `b`, character by character.
pub open spec fn text_less(a: Seq<char>, b: Seq<char>) -> bool
    decreases a.len(),
{
    if b.len() == 0 {
        false
    } else if a.len() == 0 {
        true
    } else if a[0] == b[0] {
        text_less(a.skip(1), b.skip(1))
    } else {
        a[0] < b[0]
    }
}

/// No text comes before itself.
pub proof fn lemma_less_irreflexive(a: Seq<char>)
    ensures
        !text_less(a, a),
    decreases a.len(),
{
    if a.len() > 0 {
        lemma_less_irreflexive(a.skip(1));
    }
}

/// Of two different texts one comes first.
pub proof fn lemma_less_total(a: Seq<char>, b: Seq<char>)
    ensures
        text_less(a, b) || text_less(b, a) || a == b,
        !(text_less(a, b) && text_less(b, a)),
    decreases a.len(),
{
    if a.len() > 0 && b.len() > 0 {
        if a[0] == b[0] {
            lemma_less_total(a.skip(1), b.skip(1));
            if a.skip(1) == b.skip(1) {
                assert(a =~= seq![a[0]] + a.skip(1));
                assert(b =~= seq![b[0]] + b.skip(1));
            }
        }
    } else if a.len() == 0 && b.len() == 0 {
        assert(a =~= b);
    }
}

/// What comes before something that comes before `c` comes before `c`.
pub proof fn lemma_less_transitive(a: Seq<char>, b: Seq<char>, c: Seq<char>)
    requires
        text_less(a, b),
        text_less(b, c),
    ensures
        text_less(a, c),
    decreases a.len(),
{
    if a.len() > 0 && a[0] == b[0] && b[0] == c[0] {
        lemma_less_transitive(a.skip(1), b.skip(1), c.skip(1));
    }
}

/// Whether text `a` comes strictly before text `b`.
pub fn is_less(a: &[char], b: &[char]) -> (r: bool)
    ensures
        r == text_less(a@, b@),
{
    let mut i: usize = 0;
    assert(a@.skip(0) =~= a@);
    assert(b@.skip(0) =~= b@);
    while i < a.len() && i < b.len() && a[i] == b[i]
        invariant
            i <= a@.len(),
            i <= b@.len(),
            text_less(a@.skip(i as int), b@.skip(i as int)) == text_less(a@, b@),
        decreases a@.len() - i,
    {
        assert(a@.skip(i as int).skip(1) =~= a@.skip(i + 1));
        assert(b@.skip(i as int).skip(1) =~= b@.skip(i + 1));
        i = i + 1;
    }
    if i >= b.len() {
        false
    } else if i >= a.len() {
        true
    } else {
        a[i] < b[i]
    }
}

/// Whether string `a` comes strictly before string `b`.
pub fn str_less(a: &str, b: &str) -> (r: bool)
    ensures
        r == text_less(a@, b@),
{
    let left = chars_of(a);
    let right = chars_of(b);
    is_less(left.as_slice(), right.as_slice())
}

/// Whether one list of numbers comes strictly before another, number by
/// number.
pub open spec fn numbers_less(a: Seq<u64>, b: Seq<u64>) -> bool
    decreases a.len(),
{
    if b.len() == 0 {
        false
    } else if a.len() == 0 {
        true
    } else if a[0] == b[0] {
        numbers_less(a.skip(1), b.skip(1))
    } else {
        a[0] < b[0]
    }
}

/// No list of numbers comes before itself.
pub proof fn lemma_numbers_irreflexive(a: Seq<u64>)
    ensures
        !numbers_less(a, a),
    decreases a.len(),
{
    if a.len() > 0 {
        lemma_numbers_irreflexive(a.skip(1));
    }
}

/// Of two different lists of numbers one comes first, and not both.
pub proof fn lemma_numbers_total(a: Seq<u64>, b: Seq<u64>)
    ensures
        numbers_less(a, b) || numbers_less(b, a) || a == b,
        !(numbers_less(a, b) && numbers_less(b, a)),
    decreases a.len(),
{
    if a.len() > 0 && b.len() > 0 {
        if a[0] == b[0] {
            lemma_numbers_total(a.skip(1), b.skip(1));
            if a.skip(1) == b.skip(1) {
                assert(a =~= seq![a[0]] + a.skip(1));
                assert(b =~= seq![b[0]] + b.skip(1));
            }
        }
    } else if a.len() == 0 && b.len() == 0 {
        assert(a =~= b);
    }
}

/// What comes before something that comes before `c` comes before `c`.
pub proof fn lemma_numbers_transitive(a: Seq<u64>, b: Seq<u64>, c: Seq<u64>)
    requires
        numbers_less(a, b),
        numbers_less(b, c),
    ensures
        numbers_less(a, c),
    decreases a.len(),
{
    if a.len() > 0 && a[0] == b[0] && b[0] == c[0] {
        lemma_numbers_transitive(a.skip(1), b.skip(1), c.skip(1));
    }
}

/// Whether one list of numbers comes strictly before another.
pub fn numbers_before(a: &Vec<u64>, b: &Vec<u64>) -> (r: bool)
    ensures
        r == numbers_less(a@, b@),
{
    let mut i: usize = 0;
    assert(a@.skip(0) =~= a@);
    assert(b@.skip(0) =~= b@);
    while i < a.len() && i < b.len() && a[i] == b[i]
        invariant
            i <= a@.len(),
            i <= b@.len(),
            numbers_less(a@.skip(i as int), b@.skip(i as int)) == numbers_less(a@, b@),
        decreases a@.len() - i,
    {
        assert(a@.skip(i as int).skip(1) =~= a@.skip(i + 1));
        assert(b@.skip(i as int).skip(1) =~= b@.skip(i + 1));
        i = i + 1;
    }
    if i >= b.len() {
        false
    } else if i >= a.len() {
        true
    } else {
        a[i] < b[i]
    }
}

// ---------------------------------------------------------------------------
// Stable sorting
// ---------------------------------------------------------------------------

/// Things that are listed in an order of their own.
pub trait Ordered: Sized {
    /// Whether `b` has to stand strictly before `a`.
    spec fn precedes(b: Self, a: Self) -> bool;
}

/// Ordered things that can be compared.
pub trait Ranked: Ordered {
    /// Whether `self` has to stand strictly before `other`.
    fn comes_before(&self, other: &Self) -> (r: bool)
        ensures
            r == Self::precedes(*self, *other),
    ;
}

/// Where a new element goes: behind every element at the end that does not
/// have to follow it.
pub open spec fn place<T: Ordered>(s: Seq<T>, x: T) -> int
    decreases s.len(),
{
    if s.len() > 0 && T::precedes(x, s.last()) {
        place(s.drop_last(), x)
    } else {
        s.len() as int
    }
}

/// A sequence in order: each element goes in behind those of equal rank that
/// came earlier, so the order of equals is kept.
pub open spec fn in_order<T: Ordered>(s: Seq<T>) -> Seq<T>
    decreases s.len(),
{
    if s.len() == 0 {
        s
    } else {
        let before = in_order(s.drop_last());
        before.insert(place(before, s.last()), s.last())
    }
}

/// Where a new element goes: behind one that does not have to follow it, and
/// before all that do.
pub proof fn lemma_place_in_range<T: Ordered>(s: Seq<T>, x: T)
    ensures
        0 <= place(s, x) <= s.len(),
        place(s, x) > 0 ==> !T::precedes(x, s[place(s, x) - 1]),
        forall|k: int| place(s, x) <= k < s.len() ==> T::precedes(x, #[trigger] s[k]),
    decreases s.len(),
{
    if s.len() > 0 && T::precedes(x, s.last()) {
        lemma_place_in_range(s.drop_last(), x);
        assert forall|k: int| place(s, x) <= k < s.len() implies T::precedes(
            x,
            #[trigger] s[k],
        ) by {
            if k < s.len() - 1 {
                assert(s[k] == s.drop_last()[k]);
            }
        }
    }
}

/// Sorting keeps every element, as often as it stands there.
pub proof fn law_sorting_keeps_every_element<T: Ordered>(s: Seq<T>)
    ensures
        in_order(s).to_multiset() =~= s.to_multiset(),
        in_order(s).len() == s.len(),
    decreases s.len(),
{
    broadcast use vstd::seq_lib::group_to_multiset_ensures;

    if s.len() > 0 {
        let before = in_order(s.drop_last());
        law_sorting_keeps_every_element(s.drop_last());
        lemma_place_in_range(before, s.last());
        assert(s =~= s.drop_last().push(s.last()));
    }
}

/// Whether "has to stand before" is a strict order in which what neither
/// precedes behaves as one rank.
pub open spec fn ranks_consistently<T: Ordered>() -> bool {
    &&& forall|a: T, b: T| #[trigger] T::precedes(a, b) ==> !T::precedes(b, a)
    &&& forall|a: T, b: T, c: T| #[trigger]
        T::precedes(a, b) && !(#[trigger] T::precedes(c, b)) ==> T::precedes(a, c)
}

/// A sorted sequence is in order: nothing has to stand before what precedes
/// it in the sequence.
pub proof fn law_sorted_is_ordered<T: Ordered>(s: Seq<T>)
    requires
        ranks_consistently::<T>(),
    ensures
        forall|i: int, j: int|
            0 <= i < j < in_order(s).len() ==> !T::precedes(
                #[trigger] in_order(s)[j],
                #[trigger] in_order(s)[i],
            ),
    decreases s.len(),
{
    if s.len() > 0 {
        let before = in_order(s.drop_last());
        let x = s.last();
        law_sorted_is_ordered(s.drop_last());
        lemma_place_in_range(before, x);
        let at = place(before, x);
        let after = before.insert(at, x);
        assert forall|i: int, j: int| 0 <= i < j < after.len() implies !T::precedes(
            #[trigger] after[j],
            #[trigger] after[i],
        ) by {
            let p = if i < at {
                i
            } else {
                i - 1
            };
            let q = if j < at {
                j
            } else {
                j - 1
            };
            if i != at {
                assert(after[i] == before[p]);
            }
            if j != at {
                assert(after[j] == before[q]);
            }
            if j == at {
                if T::precedes(x, before[i]) {
                    if i < at - 1 {
                        assert(!T::precedes(before[at - 1], before[i]));
                    }
                }
            } else if i == at {
                assert(T::precedes(x, before[q]));
            } else {
                assert(!T::precedes(before[q], before[p]));
            }
        }
    }
}

/// Sorting and looking at each element can be exchanged, where what is seen of
/// the elements decides their order.
pub proof fn lemma_in_order_map<T: Ordered, U: Ordered>(s: Seq<T>, f: spec_fn(T) -> U)
    requires
        forall|b: T, a: T| #[trigger] T::precedes(b, a) == U::precedes(f(b), f(a)),
    ensures
        in_order(s).map_values(f) == in_order(s.map_values(f)),
    decreases s.len(),
{
    if s.len() > 0 {
        let t = s.map_values(f);
        lemma_in_order_map(s.drop_last(), f);
        assert(t.drop_last() =~= s.drop_last().map_values(f));
        let before = in_order(s.drop_last());
        lemma_place_map(before, s.last(), f);
        lemma_place_in_range(before, s.last());
        assert(in_order(s).map_values(f) =~= in_order(t));
    } else {
        assert(in_order(s).map_values(f) =~= in_order(s.map_values(f)));
    }
}

proof fn lemma_place_map<T: Ordered, U: Ordered>(s: Seq<T>, x: T, f: spec_fn(T) -> U)
    requires
        forall|b: T, a: T| #[trigger] T::precedes(b, a) == U::precedes(f(b), f(a)),
    ensures
        place(s, x) == place(s.map_values(f), f(x)),
    decreases s.len(),
{
    if s.len() > 0 {
        assert(s.map_values(f).drop_last() =~= s.drop_last().map_values(f));
        assert(T::precedes(x, s.last()) == U::precedes(f(x), f(s.last())));
        lemma_place_map(s.drop_last(), x, f);
    }
}

/// Sorts a vector, keeping the order of equals.
pub fn sort<T: Ranked>(items: Vec<T>) -> (r: Vec<T>)
    ensures
        r@ == in_order(items@),
{
    let ghost all = items@;
    let mut out: Vec<T> = Vec::new();
    assert(all.take(0) =~= Seq::<T>::empty());
    for item in it: items
        invariant
            it.seq() == all,
            out@ == in_order(all.take(it.index() as int)),
    {
        let ghost n = it.index() as int;
        assert(all.take(n + 1).drop_last() =~= all.take(n));
        assert(all.take(n + 1).last() == item);
        let mut at: usize = out.len();
        assert(out@.take(at as int) =~= out@);
        while at > 0 && item.comes_before(&out[at - 1])
            invariant
                at <= out@.len(),
                place(out@.take(at as int), item) == place(out@, item),
            decreases at,
        {
            assert(out@.take(at as int).drop_last() =~= out@.take(at - 1));
            at = at - 1;
        }
        assert(at == place(out@, item));
        out.insert(at, item);
    }
    assert(all.take(all.len() as int) =~= all);
    out
}

// ---------------------------------------------------------------------------
// A map keyed by text
// ---------------------------------------------------------------------------

/// A map from texts, kept in the order of its keys.
#[derive(Debug, Clone, PartialEq, Eq)]
pub struct TextMap<V> {
    entries: Vec<(String, V)>,
}

impl<V> TextMap<V> {
    /// The keys and values, in the order of the keys.
    pub closed spec fn pairs(&self) -> Seq<(Seq<char>, V)> {
        Seq::new(self.entries@.len(), |i: int| (self.entries@[i].0@, self.entries@[i].1))
    }

    /// Whether the keys rise, so that none occurs twice.
    pub open spec fn wf(&self) -> bool {
        forall|i: int, j: int|
            0 <= i < j < self.pairs().len() ==> text_less(
                (#[trigger] self.pairs()[i]).0,
                (#[trigger] self.pairs()[j]).0,
            )
    }

    /// Whether a key has a value.
    pub open spec fn has(&self, key: Seq<char>) -> bool {
        exists|i: int| 0 <= i < self.pairs().len() && (#[trigger] self.pairs()[i]).0 == key
    }

    /// Where a key that has a value is.
    pub open spec fn spot(&self, key: Seq<char>) -> int {
        choose|i: int| 0 <= i < self.pairs().len() && (#[trigger] self.pairs()[i]).0 == key
    }

    /// The value of a key that has one.
    pub open spec fn value(&self, key: Seq<char>) -> V {
        self.pairs()[self.spot(key)].1
    }

    /// A map without entries.
    pub fn new() -> (r: Self)
        ensures
            r.wf(),
            r.pairs() == Seq::<(Seq<char>, V)>::empty(),
    {
        let r = TextMap { entries: Vec::new() };
        assert(r.pairs() =~= Seq::<(Seq<char>, V)>::empty());
        r
    }

    /// Number of entries.
    pub fn len(&self) -> (r: usize)
        ensures
            r == self.pairs().len(),
    {
        self.entries.len()
    }

    /// Whether there is no entry.
    pub fn is_empty(&self) -> (r: bool)
        ensures
            r == (self.pairs().len() == 0),
    {
        self.entries.len() == 0
    }

    /// The key and the value at a place in the order.
    pub fn entry(&self, i: usize) -> (r: (&str, &V))
        requires
            i < self.pairs().len(),
        ensures
            r.0@ == self.pairs()[i as int].0,
            *r.1 == self.pairs()[i as int].1,
    {
        (self.entries[i].0.as_str(), &self.entries[i].1)
    }

    /// Two entries of one map with the same key are the same entry.
    pub proof fn lemma_one_place(&self, i: int, j: int)
        requires
            self.wf(),
            0 <= i < self.pairs().len(),
            0 <= j < self.pairs().len(),
            self.pairs()[i].0 == self.pairs()[j].0,
        ensures
            i == j,
    {
        lemma_less_irreflexive(self.pairs()[i].0);
        if i < j {
            assert(text_less(self.pairs()[i].0, self.pairs()[j].0));
        } else if j < i {
            assert(text_less(self.pairs()[j].0, self.pairs()[i].0));
        }
    }

    /// What is in the entries is what the map has.
    pub proof fn lemma_value_at(&self, at: int, key: Seq<char>)
        requires
            self.wf(),
            0 <= at < self.pairs().len(),
            self.pairs()[at].0 == key,
        ensures
            self.has(key),
            self.value(key) == self.pairs()[at].1,
    {
        assert(self.has(key));
        self.lemma_one_place(self.spot(key), at);
    }

    /// The first place whose key does not come before `key`.
    fn place_of(&self, key: &str) -> (r: usize)
        requires
            self.wf(),
        ensures
            r <= self.pairs().len(),
            forall|i: int| 0 <= i < r ==> text_less((#[trigger] self.pairs()[i]).0, key@),
            r < self.pairs().len() ==> !text_less(self.pairs()[r as int].0, key@),
    {
        let mut i: usize = 0;
        while i < self.entries.len() && str_less(self.entries[i].0.as_str(), key)
            invariant
                i <= self.pairs().len(),
                self.pairs().len() == self.entries@.len(),
                forall|k: int| 0 <= k < i ==> text_less((#[trigger] self.pairs()[k]).0, key@),
            decreases self.entries@.len() - i,
        {
            i = i + 1;
        }
        i
    }

    /// Where `key` is, if it has a value.
    pub fn find(&self, key: &str) -> (r: Option<usize>)
        requires
            self.wf(),
        ensures
            match r {
                Some(i) => i < self.pairs().len() && self.pairs()[i as int].0 == key@ && self.has(
                    key@,
                ) && self.value(key@) == self.pairs()[i as int].1,
                None => !self.has(key@),
            },
    {
        let at: usize = self.place_of(key);
        if at < self.entries.len() && crate::text::same_str(self.entries[at].0.as_str(), key) {
            proof {
                assert(self.pairs()[at as int].0 == key@);
                let c = self.spot(key@);
                self.lemma_one_place(at as int, c);
            }
            Some(at)
        } else {
            proof {
                if self.has(key@) {
                    let c = self.spot(key@);
                    lemma_less_irreflexive(key@);
                    assert(c >= at);
                    if c > at {
                        assert(text_less(self.pairs()[at as int].0, self.pairs()[c].0));
                    }
                }
            }
            None
        }
    }

    /// The value of a key.
    pub fn get(&self, key: &str) -> (r: Option<&V>)
        requires
            self.wf(),
        ensures
            match r {
                Some(v) => self.has(key@) && *v == self.value(key@),
                None => !self.has(key@),
            },
    {
        match self.find(key) {
            Some(i) => Some(&self.entries[i].1),
            None => None,
        }
    }

    /// Takes a key and its value out.
    pub fn remove(&mut self, key: &str)
        requires
            old(self).wf(),
        ensures
            final(self).wf(),
            !final(self).has(key@),
            forall|other: Seq<char>|
                other != key@ ==> final(self).has(other) == old(self).has(other),
            forall|other: Seq<char>|
                other != key@ && old(self).has(other) ==> final(self).value(other) == old(
                    self,
                ).value(other),
    {
        let ghost before = *self;
        if let Some(at) = self.find(key) {
            self.entries.remove(at);
            proof {
                let after = *self;
                assert(before.pairs().len() == before.entries@.len());
                assert(after.pairs().len() == before.pairs().len() - 1);
                assert forall|i: int| 0 <= i < at implies after.pairs()[i]
                    == before.pairs()[i] by {}
                assert forall|i: int| at <= i < after.pairs().len() implies after.pairs()[i]
                    == before.pairs()[i + 1] by {}
                assert(after.wf());
                if after.has(key@) {
                    let c = after.spot(key@);
                    before.lemma_one_place(
                        if c < at {
                            c
                        } else {
                            c + 1
                        },
                        at as int,
                    );
                }
                assert forall|other: Seq<char>| other != key@ implies after.has(other)
                    == before.has(other) by {
                    if before.has(other) {
                        let c = before.spot(other);
                        if c < at {
                            assert(after.pairs()[c].0 == other);
                        } else {
                            assert(after.pairs()[c - 1].0 == other);
                        }
                    }
                    if after.has(other) {
                        let c = after.spot(other);
                        if c < at {
                            assert(before.pairs()[c].0 == other);
                        } else {
                            assert(before.pairs()[c + 1].0 == other);
                        }
                    }
                }
                assert forall|other: Seq<char>|
                    other != key@ && before.has(other) implies after.value(other)
                    == before.value(other) by {
                    assert(after.has(other));
                    let c = before.spot(other);
                    let d = after.spot(other);
                    if c < at {
                        assert(after.pairs()[c].0 == other);
                        after.lemma_one_place(c, d);
                    } else {
                        assert(after.pairs()[c - 1].0 == other);
                        after.lemma_one_place(c - 1, d);
                    }
                }
            }
        }
    }

    /// Gives a key a value, in place of the one that it had.
    pub fn insert(&mut self, key: &str, value: V)
        requires
            old(self).wf(),
        ensures
            final(self).wf(),
            final(self).has(key@),
            final(self).value(key@) == value,
            forall|other: Seq<char>|
                other != key@ ==> final(self).has(other) == old(self).has(other),
            forall|other: Seq<char>|
                other != key@ && old(self).has(other) ==> final(self).value(other) == old(
                    self,
                ).value(other),
    {
        let ghost before = *self;
        let at: usize = self.place_of(key);
        let found = at < self.entries.len() && crate::text::same_str(
            self.entries[at].0.as_str(),
            key,
        );
        if found {
            self.entries.remove(at);
        }
        let ghost cut = self.pairs();
        self.entries.insert(at, (key.to_owned(), value));
        proof {
            let shift: int = if found { 1 } else { 0 };
            let after = *self;
            assert(before.pairs().len() == before.entries@.len());
            assert(cut.len() == before.pairs().len() - shift);
            assert(after.pairs().len() == cut.len() + 1);
            assert(after.pairs()[at as int] == (key@, value));
            assert forall|i: int| 0 <= i < at implies after.pairs()[i] == before.pairs()[i] by {}
            assert forall|i: int| at < i < after.pairs().len() implies after.pairs()[i]
                == before.pairs()[i - 1 + shift] by {}
            assert forall|i: int| at < i < after.pairs().len() implies text_less(
                key@,
                (#[trigger] after.pairs()[i]).0,
            ) by {
                let j = i - 1 + shift;
                lemma_less_total(key@, before.pairs()[at as int].0);
                if j > at {
                    assert(text_less(before.pairs()[at as int].0, before.pairs()[j].0));
                    if !found {
                        if before.pairs()[at as int].0 != key@ {
                            lemma_less_transitive(
                                key@,
                                before.pairs()[at as int].0,
                                before.pairs()[j].0,
                            );
                        }
                    }
                }
            }
            assert(after.wf());
            assert forall|other: Seq<char>| other != key@ implies after.has(other) == before.has(
                other,
            ) by {
                if before.has(other) {
                    let c = before.spot(other);
                    if c < at {
                        assert(after.pairs()[c].0 == other);
                    } else {
                        assert(after.pairs()[c + 1 - shift].0 == other);
                    }
                }
                if after.has(other) {
                    let c = after.spot(other);
                    if c < at {
                        assert(before.pairs()[c].0 == other);
                    } else {
                        assert(before.pairs()[c - 1 + shift].0 == other);
                    }
                }
            }
            let k = after.spot(key@);
            after.lemma_one_place(at as int, k);
            assert forall|other: Seq<char>| other != key@ && before.has(other) implies after.value(
                other,
            ) == before.value(other) by {
                assert(after.has(other));
                let c = before.spot(other);
                let d = after.spot(other);
                if c < at {
                    assert(after.pairs()[c].0 == other);
                    after.lemma_one_place(c, d);
                } else {
                    assert(after.pairs()[c + 1 - shift].0 == other);
                    after.lemma_one_place(c + 1 - shift, d);
                }
            }
        }
    }
}


/// The value that the last pair with this key gives it, where pairs may be
/// missing.
pub open spec fn last_value<V>(pairs: Seq<Option<(Seq<char>, V)>>, key: Seq<char>) -> Option<V>
    decreases pairs.len(),
{
    if pairs.len() == 0 {
        None
    } else {
        match pairs.last() {
            Some((k, v)) if k == key => Some(v),
            _ => last_value(pairs.drop_last(), key),
        }
    }
}

/// Whether a map holds exactly what some pairs give it, the later of two
/// pairs with one key winning.
pub open spec fn holds_last<V>(m: TextMap<V>, pairs: Seq<Option<(Seq<char>, V)>>) -> bool {
    &&& m.wf()
    &&& forall|key: Seq<char>| #[trigger] m.has(key) <==> last_value(pairs, key) is Some
    &&& forall|key: Seq<char>| #[trigger]
        m.has(key) ==> last_value(pairs, key) == Some(m.value(key))
}

/// A map without entries holds what no pair gives it.
pub proof fn lemma_holds_nothing<V>(m: TextMap<V>, pairs: Seq<Option<(Seq<char>, V)>>)
    requires
        m.wf(),
        m.pairs().len() == 0,
        pairs.len() == 0,
    ensures
        holds_last(m, pairs),
{
}

/// A pair that is missing changes nothing.
pub proof fn lemma_holds_skip<V>(m: TextMap<V>, pairs: Seq<Option<(Seq<char>, V)>>)
    requires
        pairs.len() > 0,
        pairs.last() is None,
        holds_last(m, pairs.drop_last()),
    ensures
        holds_last(m, pairs),
{
    assert forall|key: Seq<char>| last_value(pairs, key) == last_value(
        pairs.drop_last(),
        key,
    ) by {}
}

/// One pair more, and the insertion that goes with it.
pub proof fn lemma_holds_insert<V>(
    before: TextMap<V>,
    after: TextMap<V>,
    pairs: Seq<Option<(Seq<char>, V)>>,
    key: Seq<char>,
    value: V,
)
    requires
        pairs.len() > 0,
        pairs.last() == Some((key, value)),
        holds_last(before, pairs.drop_last()),
        after.wf(),
        after.has(key),
        after.value(key) == value,
        forall|other: Seq<char>|
            other != key ==> #[trigger] after.has(other) == before.has(other),
        forall|other: Seq<char>|
            other != key && before.has(other) ==> #[trigger] after.value(other) == before.value(
                other,
            ),
    ensures
        holds_last(after, pairs),
{
    assert forall|k: Seq<char>| #[trigger] after.has(k) implies last_value(pairs, k) == Some(
        after.value(k),
    ) by {
        if k != key {
            assert(before.has(k));
            assert(after.value(k) == before.value(k));
        }
    }
    assert forall|k: Seq<char>| #[trigger] after.has(k) <==> last_value(pairs, k) is Some by {
        if k != key {
            assert(before.has(k) <==> last_value(pairs.drop_last(), k) is Some);
        }
    }
}

/// Texts and lists of numbers are ordered as in a dictionary: by the first
/// place in which they differ, and what is shorter comes before what goes on
/// from it.
pub proof fn law_the_first_difference_decides(
    front: Seq<char>,
    x: char,
    y: char,
    a: Seq<char>,
    b: Seq<char>,
)
    ensures
        x != y ==> text_less(front + (seq![x] + a), front + (seq![y] + b)) == (x < y),
        text_less(front, front + (seq![x] + a)),
        !text_less(front + a, front),
    decreases front.len(),
{
    let p = front + (seq![x] + a);
    let q = front + (seq![y] + b);
    if front.len() == 0 {
        assert(p[0] == x && q[0] == y);
    } else {
        assert(p[0] == front[0] && q[0] == front[0]);
        assert(p.skip(1) =~= front.skip(1) + (seq![x] + a));
        assert(q.skip(1) =~= front.skip(1) + (seq![y] + b));
        assert((front + a)[0] == front[0]);
        assert((front + a).skip(1) =~= front.skip(1) + a);
        law_the_first_difference_decides(front.skip(1), x, y, a, b);
    }
}

/// The last pair with a key decides what is held under it, and a key that no
/// pair has is not held.
pub proof fn law_the_last_pair_counts<V>(
    pairs: Seq<Option<(Seq<char>, V)>>,
    key: Seq<char>,
    other: Seq<char>,
    v: V,
)
    ensures
        last_value(pairs.push(Some((key, v))), key) == Some(v),
        other != key ==> last_value(pairs.push(Some((key, v))), other) == last_value(pairs, other),
        last_value(pairs.push(None), key) == last_value(pairs, key),
        last_value(Seq::<Option<(Seq<char>, V)>>::empty(), key) is None,
{
    assert(pairs.push(Some((key, v))).drop_last() =~= pairs);
    assert(pairs.push(None).drop_last() =~= pairs);
}

/// The order of texts is one in which things can be sorted: of two different
/// ones one comes first, and what comes before another comes before all that
/// the other does not come after.
pub proof fn lemma_texts_rank(a: Seq<char>, b: Seq<char>, c: Seq<char>)
    ensures
        text_less(a, b) ==> !text_less(b, a),
        text_less(a, b) && !text_less(c, b) ==> text_less(a, c),
        !text_less(a, b) && !text_less(b, a) ==> a == b,
{
    lemma_less_total(a, b);
    lemma_less_irreflexive(a);
    if text_less(a, b) && text_less(b, a) {
        lemma_less_transitive(a, b, a);
    }
    if text_less(a, b) && !text_less(c, b) {
        lemma_less_total(b, c);
        if text_less(b, c) {
            lemma_less_transitive(a, b, c);
        }
    }
}

} // verus!
