//! An insertion-ordered map from names to values: the names are an `indexmap` set, and the values
//! stand beside them in the same order. An `indexmap` map would hide its values, and skill values,
//! which hold maps of skill values, could not be defined over it.
use crate::keys::{add_key, copy_keys, drop_key, key_at, key_list, key_position, no_keys};
use indexmap::IndexSet;
use vstd::prelude::*;

verus! {

/// Some entry of `t` has the name `key`.
pub open spec fn has_key<V>(t: Seq<(Seq<char>, V)>, key: Seq<char>) -> bool {
    exists|i: int| 0 <= i < t.len() && (#[trigger] t[i]).0 == key
}

/// The names of the entries of `t`, in order.
pub open spec fn names_of<V>(t: Seq<(Seq<char>, V)>) -> Seq<Seq<char>> {
    Seq::new(t.len(), |i: int| t[i].0)
}

/// The place of the entry of `t` with the name `key`.
pub open spec fn key_index<V>(t: Seq<(Seq<char>, V)>, key: Seq<char>) -> int {
    choose|i: int| 0 <= i < t.len() && (#[trigger] t[i]).0 == key
}

/// The value that `t` has under the name `key`.
pub open spec fn lookup<V>(t: Seq<(Seq<char>, V)>, key: Seq<char>) -> Option<V> {
    if has_key(t, key) {
        Some(t[key_index(t, key)].1)
    } else {
        None
    }
}

/// `t` with `value` under `key`: in the place of the entry that had the name, else at the end.
pub open spec fn put<V>(t: Seq<(Seq<char>, V)>, key: Seq<char>, value: V) -> Seq<(Seq<char>, V)> {
    if has_key(t, key) {
        t.update(key_index(t, key), (key, value))
    } else {
        t.push((key, value))
    }
}

/// `t` without the entry that has the name `key`.
pub open spec fn take_out<V>(t: Seq<(Seq<char>, V)>, key: Seq<char>) -> Seq<(Seq<char>, V)> {
    if has_key(t, key) {
        t.remove(key_index(t, key))
    } else {
        t
    }
}

/// No two entries of `t` have the same name.
pub open spec fn distinct<V>(t: Seq<(Seq<char>, V)>) -> bool {
    forall|i: int, j: int|
        0 <= i < t.len() && 0 <= j < t.len() && (#[trigger] t[i]).0 == (#[trigger] t[j]).0 ==> i
            == j
}

/// In a table with distinct names, an entry with the name is the one that is found.
pub proof fn lemma_found<V>(t: Seq<(Seq<char>, V)>, i: int)
    requires
        distinct(t),
        0 <= i < t.len(),
    ensures
        has_key(t, t[i].0),
        key_index(t, t[i].0) == i,
        lookup(t, t[i].0) == Some(t[i].1),
{
    assert(has_key(t, t[i].0));
    let k = key_index(t, t[i].0);
    assert(t[k].0 == t[i].0);
}

/// Putting and taking out keep names distinct.
pub proof fn lemma_distinct<V>(t: Seq<(Seq<char>, V)>, key: Seq<char>, value: V)
    requires
        distinct(t),
    ensures
        distinct(put(t, key, value)),
        distinct(take_out(t, key)),
{
    if has_key(t, key) {
        let k = key_index(t, key);
        assert(0 <= k < t.len() && t[k].0 == key);
        let u = put(t, key, value);
        assert(forall|i: int| 0 <= i < u.len() ==> (#[trigger] u[i]).0 == t[i].0);
        let w = take_out(t, key);
        assert forall|i: int, j: int|
            0 <= i < w.len() && 0 <= j < w.len() && (#[trigger] w[i]).0 == (
            #[trigger] w[j]).0 implies i == j by {
            let a = if i < k { i } else { i + 1 };
            let b = if j < k { j } else { j + 1 };
            assert(w[i] == t[a]);
            assert(w[j] == t[b]);
        }
    } else {
        let u = put(t, key, value);
        assert forall|i: int, j: int|
            0 <= i < u.len() && 0 <= j < u.len() && (#[trigger] u[i]).0 == (
            #[trigger] u[j]).0 implies i == j by {
            if i < t.len() {
                assert(u[i] == t[i]);
            }
            if j < t.len() {
                assert(u[j] == t[j]);
            }
        }
    }
}

/// A map law: what was put under a name is found there, and every other name finds what it found.
pub proof fn law_put_then_lookup<V>(
    t: Seq<(Seq<char>, V)>,
    key: Seq<char>,
    value: V,
    other: Seq<char>,
)
    requires
        distinct(t),
    ensures
        lookup(put(t, key, value), key) == Some(value),
        other != key ==> lookup(put(t, key, value), other) == lookup(t, other),
{
    lemma_distinct(t, key, value);
    let u = put(t, key, value);
    if has_key(t, key) {
        let k = key_index(t, key);
        assert(0 <= k < t.len() && t[k].0 == key);
        assert(u[k] == (key, value));
        lemma_found(u, k);
        if other != key && has_key(t, other) {
            let o = key_index(t, other);
            assert(0 <= o < t.len() && t[o].0 == other);
            assert(u[o] == t[o]);
            lemma_found(u, o);
            lemma_found(t, o);
        } else if other != key && has_key(u, other) {
            let o = key_index(u, other);
            assert(u[o].0 == t[o].0);
            assert(has_key(t, other));
        }
    } else {
        assert(u[t.len() as int] == (key, value));
        lemma_found(u, t.len() as int);
        if other != key && has_key(t, other) {
            let o = key_index(t, other);
            assert(0 <= o < t.len() && t[o].0 == other);
            assert(u[o] == t[o]);
            lemma_found(u, o);
            lemma_found(t, o);
        } else if other != key && has_key(u, other) {
            let o = key_index(u, other);
            assert(u[o] == t[o]);
            assert(has_key(t, other));
        }
    }
}

/// A map law: a name that was taken out is found no more, and every other name finds what it
/// found.
pub proof fn law_take_out_then_lookup<V>(
    t: Seq<(Seq<char>, V)>,
    key: Seq<char>,
    other: Seq<char>,
)
    requires
        distinct(t),
    ensures
        lookup(take_out(t, key), key) is None,
        other != key ==> lookup(take_out(t, key), other) == lookup(t, other),
{
    let u = take_out(t, key);
    if has_key(t, key) {
        let k = key_index(t, key);
        assert(0 <= k < t.len() && t[k].0 == key);
        lemma_distinct(t, key, t[k].1);
        if has_key(u, key) {
            let o = key_index(u, key);
            let a = if o < k { o } else { o + 1 };
            assert(u[o] == t[a]);
        }
        if other != key && has_key(t, other) {
            let o = key_index(t, other);
            assert(0 <= o < t.len() && t[o].0 == other);
            let a = if o < k { o } else { o - 1 };
            assert(u[a] == t[o]);
            lemma_found(u, a);
            lemma_found(t, o);
        } else if other != key && has_key(u, other) {
            let o = key_index(u, other);
            let a = if o < k { o } else { o + 1 };
            assert(u[o] == t[a]);
            assert(has_key(t, other));
        }
    }
}

/// What a table holds under each name, without its order.
pub open spec fn table_map<V, W>(t: Seq<(Seq<char>, V)>, f: spec_fn(V) -> W) -> Map<Seq<char>, W> {
    Map::new(|key: Seq<char>| has_key(t, key), |key: Seq<char>| f(lookup(t, key)->0))
}

/// Putting inserts, and taking out removes.
pub proof fn lemma_table_map<V, W>(
    t: Seq<(Seq<char>, V)>,
    key: Seq<char>,
    value: V,
    f: spec_fn(V) -> W,
)
    requires
        distinct(t),
    ensures
        table_map(put(t, key, value), f) == table_map(t, f).insert(key, f(value)),
        table_map(take_out(t, key), f) == table_map(t, f).remove(key),
{
    assert forall|other: Seq<char>|
        has_key(put(t, key, value), other) == (has_key(t, other) || other == key) by {
        law_put_then_lookup(t, key, value, other);
    }
    assert forall|other: Seq<char>|
        has_key(take_out(t, key), other) == (has_key(t, other) && other != key) by {
        law_take_out_then_lookup(t, key, other);
    }
    assert(table_map(put(t, key, value), f) =~= table_map(t, f).insert(key, f(value))) by {
        assert forall|other: Seq<char>| has_key(put(t, key, value), other) implies lookup(
            put(t, key, value),
            other,
        ) == (if other == key {
            Some(value)
        } else {
            lookup(t, other)
        }) by {
            law_put_then_lookup(t, key, value, other);
        }
    }
    assert(table_map(take_out(t, key), f) =~= table_map(t, f).remove(key)) by {
        assert forall|other: Seq<char>| has_key(take_out(t, key), other) implies lookup(
            take_out(t, key),
            other,
        ) == lookup(t, other) by {
            law_take_out_then_lookup(t, key, other);
        }
    }
}

/// An insertion-ordered map from names to values.
#[derive(Debug)]
pub struct KeyedMap<V> {
    pub(crate) keys: IndexSet<String>,
    pub(crate) values: Vec<V>,
}

impl<V> KeyedMap<V> {
    /// As many values as names, and no name twice.
    #[verifier::type_invariant]
    pub open(crate) spec fn aligned(self) -> bool {
        &&& key_list(self.keys).len() == self.values@.len()
        &&& key_list(self.keys).no_duplicates()
    }

    /// The names, in order.
    pub open(crate) spec fn names(&self) -> Seq<Seq<char>> {
        key_list(self.keys)
    }

    /// The values, in the order of their names.
    pub open(crate) spec fn vals(&self) -> Seq<V> {
        self.values@
    }

    /// The entries, in order.
    pub open spec fn view(&self) -> Seq<(Seq<char>, V)> {
        Seq::new(self.vals().len(), |i: int| (self.names()[i], self.vals()[i]))
    }

    proof fn aligned_is_distinct(self)
        requires
            self.aligned(),
        ensures
            distinct(self@),
            self.names().len() == self.vals().len(),
    {
    }

    /// A map without entries.
    pub fn new() -> (r: KeyedMap<V>)
        ensures
            r@ == Seq::<(Seq<char>, V)>::empty(),
            r.vals().len() == 0,
            distinct(r@),
    {
        let r = KeyedMap { keys: no_keys(), values: Vec::new() };
        assert(r@ =~= Seq::<(Seq<char>, V)>::empty());
        r
    }

    pub fn len(&self) -> (r: usize)
        ensures
            r == self@.len(),
            distinct(self@),
    {
        proof {
            use_type_invariant(self);
            self.aligned_is_distinct();
        }
        self.values.len()
    }

    /// The names, in order.
    pub fn key_set(&self) -> (r: &IndexSet<String>)
        ensures
            key_list(*r) == names_of(self@),
            distinct(self@),
    {
        proof {
            use_type_invariant(self);
            self.aligned_is_distinct();
            assert(self.names() =~= names_of(self@));
        }
        &self.keys
    }

    pub fn is_empty(&self) -> (r: bool)
        ensures
            r == (self@.len() == 0),
            distinct(self@),
    {
        self.len() == 0
    }

    /// The name of the entry at a place.
    pub fn key(&self, i: usize) -> (r: &String)
        requires
            i < self@.len(),
        ensures
            r@ == self@[i as int].0,
            distinct(self@),
    {
        proof {
            use_type_invariant(self);
            self.aligned_is_distinct();
        }
        match key_at(&self.keys, i) {
            Some(k) => k,
            None => vstd::pervasive::unreached(),
        }
    }

    /// The value of the entry at a place.
    pub fn value(&self, i: usize) -> (r: &V)
        requires
            i < self@.len(),
        ensures
            *r == self@[i as int].1,
            *r == self.vals()[i as int],
            distinct(self@),
    {
        proof {
            use_type_invariant(self);
            self.aligned_is_distinct();
        }
        &self.values[i]
    }

    /// The place of a name.
    pub fn position(&self, key: &str) -> (r: Option<usize>)
        ensures
            distinct(self@),
            match r {
                Some(i) => i < self@.len() && has_key(self@, key@) && key_index(self@, key@) == i
                    && self@[i as int].0 == key@,
                None => !has_key(self@, key@),
            },
    {
        proof {
            use_type_invariant(self);
            self.aligned_is_distinct();
        }
        let r = key_position(&self.keys, key);
        proof {
            match r {
                Some(i) => {
                    assert(self@[i as int].0 == key@);
                    lemma_found(self@, i as int);
                },
                None => {
                    if has_key(self@, key@) {
                        let i = key_index(self@, key@);
                        assert(self@[i].0 == key@);
                        assert(self.names()[i] == key@);
                        assert(self.names().contains(key@));
                    }
                },
            }
        }
        r
    }

    pub fn contains_key(&self, key: &str) -> (r: bool)
        ensures
            r == has_key(self@, key@),
            distinct(self@),
    {
        self.position(key).is_some()
    }

    /// The value under a name.
    pub fn get(&self, key: &str) -> (r: Option<&V>)
        ensures
            distinct(self@),
            match r {
                Some(v) => lookup(self@, key@) == Some(*v),
                None => lookup(self@, key@) is None,
            },
    {
        match self.position(key) {
            Some(i) => Some(self.value(i)),
            None => None,
        }
    }

    /// A map with the same names in the same order over other values.
    pub fn rebuilt<W>(&self, values: Vec<W>) -> (r: KeyedMap<W>)
        requires
            values@.len() == self@.len(),
        ensures
            r.names() == self.names(),
            r.vals() == values@,
            distinct(r@),
            distinct(self@),
    {
        proof {
            use_type_invariant(self);
            self.aligned_is_distinct();
        }
        let r = KeyedMap { keys: copy_keys(&self.keys), values };
        proof {
            r.aligned_is_distinct();
        }
        r
    }

    fn with(self, key: String, value: V) -> (r: (KeyedMap<V>, Option<V>))
        ensures
            r.0@ == put(self@, key@, value),
            r.1 == lookup(self@, key@),
            distinct(self@),
            distinct(r.0@),
    {
        let found = self.position(key.as_str());
        proof {
            use_type_invariant(&self);
            lemma_distinct(self@, key@, value);
        }
        let KeyedMap { mut keys, mut values } = self;
        match found {
            Some(i) => {
                let mut spare: V = value;
                std::mem::swap(&mut values[i], &mut spare);
                let r = KeyedMap { keys, values };
                assert(r@ =~= put(self@, key@, value));
                (r, Some(spare))
            },
            None => {
                proof {
                    if key_list(keys).contains(key@) {
                        let i = key_list(keys).index_of(key@);
                        assert(self@[i].0 == key@);
                    }
                }
                let ghost old_list = key_list(keys);
                let _ = add_key(&mut keys, key);
                values.push(value);
                assert(key_list(keys).no_duplicates());
                let r = KeyedMap { keys, values };
                assert(r@ =~= put(self@, key@, value));
                (r, None)
            },
        }
    }

    /// Puts a value under a name and hands back the one that was there.
    pub fn insert(&mut self, key: String, value: V) -> (r: Option<V>)
        ensures
            final(self)@ == put(old(self)@, key@, value),
            r == lookup(old(self)@, key@),
            distinct(old(self)@),
            distinct(final(self)@),
    {
        let mut whole = KeyedMap::new();
        std::mem::swap(&mut whole, self);
        let (whole, previous) = whole.with(key, value);
        *self = whole;
        previous
    }

    fn without(self, key: &str) -> (r: (KeyedMap<V>, Option<V>))
        ensures
            r.0@ == take_out(self@, key@),
            r.1 == lookup(self@, key@),
            distinct(self@),
            distinct(r.0@),
    {
        match self.position(key) {
            Some(i) => {
                proof {
                    use_type_invariant(&self);
                    lemma_distinct(self@, key@, self@[i as int].1);
                }
                let KeyedMap { mut keys, mut values } = self;
                let ghost before = key_list(keys);
                assert(before[i as int] == key@);
                let _ = drop_key(&mut keys, key);
                proof {
                    let j = choose|j: int|
                        0 <= j < before.len() && #[trigger] before[j] == key@ && key_list(keys)
                            == before.remove(j);
                    assert(j == i);
                    assert(key_list(keys) == before.remove(i as int));
                    assert forall|a: int, b: int|
                        0 <= a < key_list(keys).len() && 0 <= b < key_list(keys).len() && a
                            != b implies key_list(keys)[a] != key_list(keys)[b] by {
                        let x = if a < i { a } else { a + 1 };
                        let y = if b < i { b } else { b + 1 };
                        assert(key_list(keys)[a] == before[x]);
                        assert(key_list(keys)[b] == before[y]);
                    }
                }
                let value = values.remove(i);
                let r = KeyedMap { keys, values };
                assert(r@ =~= take_out(self@, key@));
                (r, Some(value))
            },
            None => (self, None),
        }
    }

    /// Takes out the entry with a name; those behind it move up by one.
    pub fn shift_remove(&mut self, key: &str) -> (r: Option<V>)
        ensures
            final(self)@ == take_out(old(self)@, key@),
            r == lookup(old(self)@, key@),
            distinct(old(self)@),
            distinct(final(self)@),
    {
        let mut whole = KeyedMap::new();
        std::mem::swap(&mut whole, self);
        let (whole, previous) = whole.without(key);
        *self = whole;
        previous
    }
}

} // verus!
