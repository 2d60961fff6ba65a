//! Maps that keep their entries in the order of their keys.

use crate::text::{
    lemma_text_before_irreflexive, lemma_text_before_total, lemma_text_before_transitive,
    precedes_text, same_text, text_before,
};
use vstd::prelude::*;

verus! {

/// A key is made of one or more texts, and ordered by the first in which two keys differ.
pub trait Key: Sized {
    spec fn parts(&self) -> Seq<Seq<char>>;

    fn precedes(&self, other: &Self) -> (r: bool)
        ensures
            r == parts_before(self.parts(), other.parts()),
    ;

    fn same(&self, other: &Self) -> (r: bool)
        ensures
            r == (self.parts() == other.parts()),
    ;
}

/// Whether the key `a` comes before the key `b`.
pub open spec fn parts_before(a: Seq<Seq<char>>, b: Seq<Seq<char>>) -> bool
    decreases a.len(),
{
    b.len() > 0 && (a.len() == 0 || text_before(a[0], b[0]) || (a[0] == b[0] && parts_before(
        a.drop_first(),
        b.drop_first(),
    )))
}

pub proof fn lemma_parts_before_irreflexive(a: Seq<Seq<char>>)
    ensures
        !parts_before(a, a),
    decreases a.len(),
{
    if a.len() > 0 {
        lemma_text_before_irreflexive(a[0]);
        lemma_parts_before_irreflexive(a.drop_first());
    }
}

pub proof fn lemma_parts_before_transitive(a: Seq<Seq<char>>, b: Seq<Seq<char>>, c: Seq<Seq<char>>)
    requires
        parts_before(a, b),
        parts_before(b, c),
    ensures
        parts_before(a, c),
    decreases a.len(),
{
    if a.len() > 0 {
        if text_before(a[0], b[0]) {
            if text_before(b[0], c[0]) {
                lemma_text_before_transitive(a[0], b[0], c[0]);
            }
        } else if a[0] == b[0] && b[0] == c[0] && !text_before(b[0], c[0]) {
            lemma_parts_before_transitive(a.drop_first(), b.drop_first(), c.drop_first());
        }
    }
}

pub proof fn lemma_parts_before_total(a: Seq<Seq<char>>, b: Seq<Seq<char>>)
    ensures
        a == b || parts_before(a, b) || parts_before(b, a),
    decreases a.len(),
{
    if a.len() > 0 && b.len() > 0 {
        lemma_text_before_total(a[0], b[0]);
        if a[0] == b[0] {
            lemma_parts_before_total(a.drop_first(), b.drop_first());
            if a.drop_first() == b.drop_first() {
                assert(a =~= seq![a[0]] + a.drop_first());
                assert(b =~= seq![b[0]] + b.drop_first());
            }
        }
    } else if a.len() == 0 && b.len() == 0 {
        assert(a =~= b);
    }
}

impl Key for String {
    open spec fn parts(&self) -> Seq<Seq<char>> {
        seq![self@]
    }

    fn precedes(&self, other: &Self) -> (r: bool) {
        assert(self.parts().drop_first() =~= seq![]);
        assert(other.parts().drop_first() =~= seq![]);
        assert(!parts_before(seq![], seq![]));
        precedes_text(self.as_str(), other.as_str())
    }

    fn same(&self, other: &Self) -> (r: bool) {
        assert(self.parts()[0] == self@ && other.parts()[0] == other@);
        same_text(self.as_str(), other.as_str())
    }
}

impl Key for (String, String) {
    open spec fn parts(&self) -> Seq<Seq<char>> {
        seq![self.0@, self.1@]
    }

    fn precedes(&self, other: &Self) -> (r: bool) {
        assert(self.parts().drop_first() =~= seq![self.1@]);
        assert(other.parts().drop_first() =~= seq![other.1@]);
        assert(seq![self.1@].drop_first() =~= Seq::<Seq<char>>::empty());
        assert(seq![other.1@].drop_first() =~= Seq::<Seq<char>>::empty());
        assert(!parts_before(Seq::<Seq<char>>::empty(), Seq::<Seq<char>>::empty()));
        assert(parts_before(seq![self.1@], seq![other.1@]) == text_before(self.1@, other.1@));
        if precedes_text(self.0.as_str(), other.0.as_str()) {
            true
        } else if same_text(self.0.as_str(), other.0.as_str()) {
            precedes_text(self.1.as_str(), other.1.as_str())
        } else {
            false
        }
    }

    fn same(&self, other: &Self) -> (r: bool) {
        assert(self.parts()[0] == self.0@ && other.parts()[0] == other.0@);
        assert(self.parts()[1] == self.1@ && other.parts()[1] == other.1@);
        same_text(self.0.as_str(), other.0.as_str()) && same_text(
            self.1.as_str(),
            other.1.as_str(),
        )
    }
}

/// The entries of a map: keys and their values.
pub type Entries<V> = Seq<(Seq<Seq<char>>, V)>;

/// How many entries stand before the place of `key`.
pub open spec fn place_of<V>(entries: Entries<V>, key: Seq<Seq<char>>) -> int
    decreases entries.len(),
{
    if entries.len() == 0 || !parts_before(entries[0].0, key) {
        0
    } else {
        1 + place_of(entries.drop_first(), key)
    }
}

/// Whether there is an entry for `key`.
pub open spec fn has_key<V>(entries: Entries<V>, key: Seq<Seq<char>>) -> bool {
    let i = place_of(entries, key);
    i < entries.len() && entries[i].0 == key
}

/// The value of `key`.
pub open spec fn value_of<V>(entries: Entries<V>, key: Seq<Seq<char>>) -> Option<V> {
    if has_key(entries, key) {
        Some(entries[place_of(entries, key)].1)
    } else {
        None
    }
}

/// The entries with `value` for `key`.
pub open spec fn with_value<V>(entries: Entries<V>, key: Seq<Seq<char>>, value: V) -> Entries<V> {
    let i = place_of(entries, key);
    if has_key(entries, key) {
        entries.update(i, (key, value))
    } else {
        entries.insert(i, (key, value))
    }
}

/// The entries without `key`.
pub open spec fn without_key<V>(entries: Entries<V>, key: Seq<Seq<char>>) -> Entries<V> {
    if has_key(entries, key) {
        entries.remove(place_of(entries, key))
    } else {
        entries
    }
}

/// The entries with one more for `key`. A missing count is 0.
pub open spec fn incremented(entries: Entries<u64>, key: Seq<Seq<char>>) -> Entries<u64> {
    let count = match value_of(entries, key) {
        Some(count) => count as int,
        None => 0,
    };
    with_value(entries, key, (count + 1) as u64)
}

/// The entries with the total of `key` greater by `amount`, but at most the greatest 128-bit
/// number. A missing total is 0.
pub open spec fn raised(entries: Entries<u128>, key: Seq<Seq<char>>, amount: int) -> Entries<u128> {
    let total = match value_of(entries, key) {
        Some(total) => total as int,
        None => 0,
    };
    with_value(
        entries,
        key,
        if total + amount > u128::MAX {
            u128::MAX
        } else {
            (total + amount) as u128
        },
    )
}

/// The keys stand in strictly ascending order.
pub open spec fn ascending<V>(entries: Entries<V>) -> bool {
    forall|i: int, j: int|
        0 <= i < j < entries.len() ==> parts_before(
            (#[trigger] entries[i]).0,
            (#[trigger] entries[j]).0,
        )
}

/// The place of a key is among the entries, behind those that come before it.
pub proof fn lemma_place_of<V>(entries: Entries<V>, key: Seq<Seq<char>>)
    ensures
        0 <= place_of(entries, key) <= entries.len(),
        forall|i: int| 0 <= i < place_of(entries, key) ==> parts_before(#[trigger] entries[i].0, key),
        place_of(entries, key) < entries.len() ==> !parts_before(
            entries[place_of(entries, key)].0,
            key,
        ),
    decreases entries.len(),
{
    if entries.len() > 0 && parts_before(entries[0].0, key) {
        let rest = entries.drop_first();
        lemma_place_of(rest, key);
        assert forall|i: int| 0 <= i < place_of(entries, key) implies parts_before(
            #[trigger] entries[i].0,
            key,
        ) by {
            if i > 0 {
                assert(entries[i] == rest[i - 1]);
            }
        }
    }
}

/// In ascending entries, every key that occurs is found.
pub proof fn lemma_place_is_found<V>(entries: Entries<V>, i: int)
    requires
        ascending(entries),
        0 <= i < entries.len(),
    ensures
        place_of(entries, entries[i].0) == i,
        value_of(entries, entries[i].0) == Some(entries[i].1),
{
    let key = entries[i].0;
    let p = place_of(entries, key);
    lemma_place_of(entries, key);
    if p < i {
        assert(parts_before(entries[p].0, key));
    } else if p > i {
        lemma_parts_before_irreflexive(key);
    }
}

/// A value that was put is read back; every other key keeps its value; and the keys stay in
/// ascending order.
pub proof fn law_put_then_get<V>(
    entries: Entries<V>,
    key: Seq<Seq<char>>,
    value: V,
    other: Seq<Seq<char>>,
)
    requires
        ascending(entries),
    ensures
        ascending(with_value(entries, key, value)),
        value_of(with_value(entries, key, value), key) == Some(value),
        other != key ==> value_of(with_value(entries, key, value), other) == value_of(
            entries,
            other,
        ),
{
    let p = place_of(entries, key);
    let after = with_value(entries, key, value);
    lemma_place_of(entries, key);
    if !has_key(entries, key) {
        assert forall|i: int| p <= i < entries.len() implies parts_before(
            key,
            #[trigger] entries[i].0,
        ) by {
            lemma_parts_before_total(key, entries[p].0);
            if i > p {
                lemma_parts_before_transitive(key, entries[p].0, entries[i].0);
            }
        }
        assert forall|i: int, j: int| 0 <= i < j < after.len() implies parts_before(
            (#[trigger] after[i]).0,
            (#[trigger] after[j]).0,
        ) by {
            let before_i = if i < p {
                i
            } else {
                i - 1
            };
            let before_j = if j < p {
                j
            } else {
                j - 1
            };
            if i == p {
                assert(after[j] == entries[j - 1]);
            } else if j == p {
                assert(after[i] == entries[i]);
            } else {
                assert(after[i] == entries[before_i]);
                assert(after[j] == entries[before_j]);
            }
        }
    } else {
        assert forall|i: int, j: int| 0 <= i < j < after.len() implies parts_before(
            (#[trigger] after[i]).0,
            (#[trigger] after[j]).0,
        ) by {
            assert(after[i].0 == entries[i].0);
            assert(after[j].0 == entries[j].0);
        }
    }
    assert(after[p] == (key, value));
    lemma_place_is_found(after, p);
    if other != key {
        lemma_place_of(after, other);
        lemma_place_of(entries, other);
        if has_key(entries, other) {
            let q = place_of(entries, other);
            let moved = if has_key(entries, key) || q < p {
                q
            } else {
                q + 1
            };
            assert(after[moved] == entries[q]);
            lemma_place_is_found(after, moved);
        } else if has_key(after, other) {
            let q = place_of(after, other);
            let moved = if has_key(entries, key) || q < p {
                q
            } else {
                q - 1
            };
            assert(q != p);
            assert(entries[moved] == after[q]);
            lemma_place_is_found(entries, moved);
        }
    }
}

/// A key that was removed is not found; every other key keeps its value; and the keys stay in
/// ascending order.
pub proof fn law_remove_then_get<V>(
    entries: Entries<V>,
    key: Seq<Seq<char>>,
    other: Seq<Seq<char>>,
)
    requires
        ascending(entries),
    ensures
        ascending(without_key(entries, key)),
        value_of(without_key(entries, key), key) is None,
        other != key ==> value_of(without_key(entries, key), other) == value_of(entries, other),
{
    let p = place_of(entries, key);
    let after = without_key(entries, key);
    lemma_place_of(entries, key);
    if has_key(entries, key) {
        assert forall|i: int, j: int| 0 <= i < j < after.len() implies parts_before(
            (#[trigger] after[i]).0,
            (#[trigger] after[j]).0,
        ) by {
            let old_i = if i < p {
                i
            } else {
                i + 1
            };
            let old_j = if j < p {
                j
            } else {
                j + 1
            };
            assert(after[i] == entries[old_i]);
            assert(after[j] == entries[old_j]);
        }
        lemma_place_of(after, key);
        if has_key(after, key) {
            let q = place_of(after, key);
            let old_q = if q < p {
                q
            } else {
                q + 1
            };
            assert(entries[old_q] == after[q]);
            lemma_place_is_found(entries, old_q);
        }
        if other != key {
            lemma_place_of(after, other);
            lemma_place_of(entries, other);
            if has_key(entries, other) {
                let q = place_of(entries, other);
                let moved = if q < p {
                    q
                } else {
                    q - 1
                };
                assert(after[moved] == entries[q]);
                lemma_place_is_found(after, moved);
            } else if has_key(after, other) {
                let q = place_of(after, other);
                let moved = if q < p {
                    q
                } else {
                    q + 1
                };
                assert(entries[moved] == after[q]);
                lemma_place_is_found(entries, moved);
            }
        }
    }
}

impl<K: Key> OrderedMap<K, u64> {
    /// Counts one more for `key`.
    pub fn increment(&mut self, key: K)
        requires
            value_of(old(self)@, key.parts()) != Some(u64::MAX),
        ensures
            final(self)@ == incremented(old(self)@, key.parts()),
    {
        let count: u64 = match self.get(&key) {
            Some(count) => *count,
            None => 0,
        };
        self.insert(key, count + 1);
    }
}

/// Every count is at most `limit`.
pub open spec fn counts_within(entries: Entries<u64>, limit: int) -> bool {
    forall|i: int| 0 <= i < entries.len() ==> (#[trigger] entries[i]).1 <= limit
}

/// Counting one more raises no count by more than one.
pub proof fn lemma_counts_within(entries: Entries<u64>, key: Seq<Seq<char>>, limit: int)
    requires
        counts_within(entries, limit),
        0 <= limit < u64::MAX,
    ensures
        value_of(entries, key) != Some(u64::MAX),
        counts_within(incremented(entries, key), limit + 1),
{
    lemma_place_of(entries, key);
}

impl<K: Key> OrderedMap<K, u128> {
    /// Adds `amount` to the total of `key`.
    pub fn raise(&mut self, key: K, amount: u64)
        ensures
            final(self)@ == raised(old(self)@, key.parts(), amount as int),
    {
        let total: u128 = match self.get(&key) {
            Some(total) => *total,
            None => 0,
        };
        self.insert(key, total.saturating_add(amount as u128));
    }
}

/// A map whose entries stand in the order of their keys.
#[derive(Debug)]
pub struct OrderedMap<K: Key, V> {
    entries: Vec<(K, V)>,
}

impl<K: Key, V> View for OrderedMap<K, V> {
    type V = Entries<V>;

    closed spec fn view(&self) -> Entries<V> {
        Seq::new(self.entries@.len(), |i: int| (self.entries@[i].0.parts(), self.entries@[i].1))
    }
}

impl<K: Key, V> Default for OrderedMap<K, V> {
    fn default() -> (r: Self)
        ensures
            r@ == Entries::<V>::empty(),
    {
        OrderedMap::new()
    }
}

impl<K: Key, V> OrderedMap<K, V> {
    #[verifier::type_invariant]
    spec fn keys_ascend(self) -> bool {
        ascending(self@)
    }

    /// The empty map.
    pub fn new() -> (r: Self)
        ensures
            r@ == Entries::<V>::empty(),
    {
        let r = OrderedMap { entries: Vec::new() };
        assert(r@ =~= Entries::<V>::empty());
        r
    }

    /// How many entries there are.
    pub fn len(&self) -> (r: usize)
        ensures
            r == self@.len(),
            ascending(self@),
    {
        proof {
            use_type_invariant(self);
        }
        self.entries.len()
    }

    /// The key at a position.
    pub fn key_at(&self, i: usize) -> (r: &K)
        requires
            i < self@.len(),
        ensures
            r.parts() == self@[i as int].0,
    {
        &self.entries[i].0
    }

    /// The value at a position.
    pub fn value_at(&self, i: usize) -> (r: &V)
        requires
            i < self@.len(),
        ensures
            *r == self@[i as int].1,
    {
        &self.entries[i].1
    }

    fn place(&self, key: &K) -> (r: usize)
        ensures
            r == place_of(self@, key.parts()),
            r <= self@.len(),
    {
        let mut i: usize = 0;
        assert(self@.skip(0) =~= self@);
        while i < self.entries.len() && self.entries[i].0.precedes(key)
            invariant
                i <= self@.len(),
                self@.len() == self.entries@.len(),
                place_of(self@, key.parts()) == i + place_of(self@.skip(i as int), key.parts()),
            decreases self@.len() - i,
        {
            assert(self@.skip(i as int).drop_first() =~= self@.skip(i + 1));
            assert(self@.skip(i as int)[0] == self@[i as int]);
            i = i + 1;
        }
        if i < self.entries.len() {
            assert(self@.skip(i as int)[0] == self@[i as int]);
        }
        i
    }

    /// Whether there is an entry for `key`.
    pub fn contains_key(&self, key: &K) -> (r: bool)
        ensures
            r == has_key(self@, key.parts()),
    {
        let i = self.place(key);
        i < self.entries.len() && self.entries[i].0.same(key)
    }

    /// The value of `key`.
    pub fn get(&self, key: &K) -> (r: Option<&V>)
        ensures
            match r {
                Some(value) => value_of(self@, key.parts()) == Some(*value),
                None => value_of(self@, key.parts()) is None,
            },
    {
        let i = self.place(key);
        if i < self.entries.len() && self.entries[i].0.same(key) {
            Some(&self.entries[i].1)
        } else {
            None
        }
    }

    /// Puts a value, in place of the one that `key` had.
    pub fn insert(&mut self, key: K, value: V)
        ensures
            final(self)@ == with_value(old(self)@, key.parts(), value),
            ascending(final(self)@),
    {
        proof {
            use_type_invariant(&*self);
        }
        let ghost before = self@;
        let ghost parts = key.parts();
        let i = self.place(&key);
        let known = i < self.entries.len() && self.entries[i].0.same(&key);
        let mut entries: Vec<(K, V)> = Vec::new();
        std::mem::swap(&mut entries, &mut self.entries);
        if known {
            entries.set(i, (key, value));
        } else {
            entries.insert(i, (key, value));
        }
        proof {
            law_put_then_get(before, parts, value, parts);
            assert(Seq::new(entries@.len(), |i: int| (entries@[i].0.parts(), entries@[i].1))
                =~= with_value(before, parts, value));
        }
        self.entries = entries;
    }

    /// Removes a key and hands out its value.
    pub fn remove(&mut self, key: &K) -> (r: Option<V>)
        ensures
            r == value_of(old(self)@, key.parts()),
            final(self)@ == without_key(old(self)@, key.parts()),
            ascending(final(self)@),
    {
        proof {
            use_type_invariant(&*self);
        }
        let ghost before = self@;
        let i = self.place(key);
        if i < self.entries.len() && self.entries[i].0.same(key) {
            let mut entries: Vec<(K, V)> = Vec::new();
            std::mem::swap(&mut entries, &mut self.entries);
            let (_, value) = entries.remove(i);
            proof {
                law_remove_then_get(before, key.parts(), key.parts());
                assert(Seq::new(entries@.len(), |i: int| (entries@[i].0.parts(), entries@[i].1))
                    =~= without_key(before, key.parts()));
            }
            self.entries = entries;
            Some(value)
        } else {
            None
        }
    }
}

} // verus!
