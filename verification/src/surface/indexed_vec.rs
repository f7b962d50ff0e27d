//! A dense vector of values that are looked up by a key each value carries, through a
//! hash index from key to position.
use vstd::prelude::*;

use std::collections::HashMap;

verus! {

broadcast use vstd::std_specs::hash::group_hash_axioms;

/// A value that exposes a lookup key.
pub trait Keyed {
    /// The value's key.
    spec fn spec_key(&self) -> u64;

    /// Returns the value's lookup key.
    fn key(&self) -> (k: u64)
        ensures
            k == self.spec_key(),
    ;
}

/// No two values of `s` share a key.
pub open spec fn keys_unique<V: Keyed>(s: Seq<V>) -> bool {
    forall|i: int, j: int|
        0 <= i < s.len() && 0 <= j < s.len() && i != j ==> #[trigger] s[i].spec_key()
            != #[trigger] s[j].spec_key()
}

/// Some value of `s` has key `key`.
pub open spec fn has_key<V: Keyed>(s: Seq<V>, key: u64) -> bool {
    exists|i: int| 0 <= i < s.len() && #[trigger] s[i].spec_key() == key
}

/// The value of `s` with key `key`, if there is one.
pub open spec fn value_for<V: Keyed>(s: Seq<V>, key: u64) -> Option<V> {
    if has_key(s, key) {
        Some(s[choose|i: int| 0 <= i < s.len() && #[trigger] s[i].spec_key() == key])
    } else {
        None
    }
}

/// With keys unique, the value found by the key of `s[i]` is `s[i]`.
pub proof fn lemma_value_for<V: Keyed>(s: Seq<V>, i: int)
    requires
        keys_unique(s),
        0 <= i < s.len(),
    ensures
        value_for(s, s[i].spec_key()) == Some(s[i]),
{
    let key = s[i].spec_key();
    assert(has_key(s, key));
    let j = choose|j: int| 0 <= j < s.len() && #[trigger] s[j].spec_key() == key;
    if j != i {
        assert(s[j].spec_key() != s[i].spec_key());
    }
}

/// `s` with the value at `i` replaced by the last one and the last slot dropped.
pub open spec fn swap_removed<V>(s: Seq<V>, i: int) -> Seq<V> {
    s.update(i, s.last()).drop_last()
}

/// `index` maps exactly the keys of `items`, each to a position holding a value with that
/// key.
pub open spec fn index_consistent<V: Keyed>(index: Map<u64, usize>, items: Seq<V>) -> bool {
    &&& forall|k: u64| #[trigger]
        index.contains_key(k) ==> index[k] < items.len() && items[index[k] as int].spec_key() == k
    &&& forall|i: int| 0 <= i < items.len() ==> #[trigger] index.contains_key(items[i].spec_key())
}

/// Replacing a value by one with the same key keeps the keys unique and the index
/// consistent.
proof fn lemma_same_key_update<V: Keyed>(index: Map<u64, usize>, items: Seq<V>, i: int)
    requires
        keys_unique(items),
        index_consistent(index, items),
        0 <= i < items.len(),
    ensures
        forall|v: V|
            v.spec_key() == items[i].spec_key() ==> #[trigger] keys_unique(items.update(i, v))
                && index_consistent(index, items.update(i, v)),
{
    assert forall|v: V| v.spec_key() == items[i].spec_key() implies #[trigger] keys_unique(items.update(i, v))
        && index_consistent(index, items.update(i, v)) by {
        let t = items.update(i, v);
        assert forall|a: int, b: int|
            0 <= a < t.len() && 0 <= b < t.len() && a != b implies #[trigger] t[a].spec_key()
            != #[trigger] t[b].spec_key() by {
            assert(t[a].spec_key() == items[a].spec_key());
            assert(t[b].spec_key() == items[b].spec_key());
        }
        assert forall|j: int| 0 <= j < t.len() implies #[trigger] index.contains_key(t[j].spec_key()) by {
            assert(t[j].spec_key() == items[j].spec_key());
        }
        assert forall|k: u64| #[trigger] index.contains_key(k) implies index[k] < t.len() && t[index[k] as int].spec_key()
            == k by {
            assert(t[index[k] as int].spec_key() == items[index[k] as int].spec_key());
        }
    }
}

/// A dense vector-backed store whose values are found by key through a hash index, in
/// insertion order unless placed explicitly.
pub struct IndexedVec<V> {
    index: HashMap<u64, usize>,
    items: Vec<V>,
}

impl<V> View for IndexedVec<V> {
    type V = Seq<V>;

    closed spec fn view(&self) -> Seq<V> {
        self.items@
    }
}

impl<V: Keyed> IndexedVec<V> {
    /// The hash index finds every value by its key.
    pub closed spec fn index_ok(&self) -> bool {
        index_consistent(self.index@, self.items@)
    }

    /// Keys are unique and the index finds every value by its key.
    pub open spec fn wf(&self) -> bool {
        &&& keys_unique(self@)
        &&& self.index_ok()
    }

    /// Creates an empty `IndexedVec`.
    pub fn new() -> (v: Self)
        ensures
            v.wf(),
            v@ == Seq::<V>::empty(),
    {
        IndexedVec { index: HashMap::new(), items: Vec::new() }
    }

    /// Rebuilds the index from the current order of the values.
    fn rebuild_index(&mut self)
        ensures
            final(self)@ == old(self)@,
            final(self).index_ok(),
    {
        let mut index: HashMap<u64, usize> = HashMap::new();
        let n = self.items.len();
        let mut i: usize = 0;
        while i < n
            invariant
                i <= n,
                n == self.items@.len(),
                forall|k: u64| #[trigger]
                    index@.contains_key(k) ==> index@[k] < i && self.items@[index@[k] as int].spec_key() == k,
                forall|j: int| 0 <= j < i ==> #[trigger] index@.contains_key(self.items@[j].spec_key()),
            decreases n - i,
        {
            let k = self.items[i].key();
            index.insert(k, i);
            i += 1;
        }
        self.index = index;
    }

    /// Returns the number of stored items.
    pub fn len(&self) -> (n: usize)
        ensures
            n == self@.len(),
    {
        self.items.len()
    }

    /// Position of the value with key `key`, as the index gives it.
    pub fn position(&self, key: u64) -> (r: Option<usize>)
        requires
            self.wf(),
        ensures
            match r {
                Some(i) => i < self@.len() && self@[i as int].spec_key() == key,
                None => !has_key(self@, key),
            },
    {
        match self.index.get(&key) {
            Some(i) => Some(*i),
            None => {
                proof {
                    if has_key(self@, key) {
                        let j = choose|j: int| 0 <= j < self@.len() && #[trigger] self@[j].spec_key() == key;
                        assert(self.index@.contains_key(self.items@[j].spec_key()));
                    }
                }
                None
            },
        }
    }

    /// Inserts `value`. Replaces and returns the value with the same key if there is one;
    /// otherwise appends the value and returns `None`.
    pub fn insert(&mut self, value: V) -> (r: Option<V>)
        requires
            old(self).wf(),
        ensures
            final(self).wf(),
            match r {
                Some(prev) => exists|i: int|
                    0 <= i < old(self)@.len() && old(self)@[i] == prev && prev.spec_key()
                        == value.spec_key() && final(self)@ == old(self)@.update(i, value),
                None => !has_key(old(self)@, value.spec_key()) && final(self)@ == old(self)@.push(
                    value,
                ),
            },
    {
        let key = value.key();
        match self.position(key) {
            Some(idx) => {
                let mut value = value;
                let ghost s = self@;
                proof {
                    lemma_same_key_update(self.index@, s, idx as int);
                }
                self.items.set_and_swap(idx, &mut value);
                assert(self@ == s.update(idx as int, self@[idx as int]));
                Some(value)
            },
            None => {
                let ghost s = self@;
                let n = self.items.len();
                self.items.push(value);
                self.index.insert(key, n);
                proof {
                    let t = self@;
                    assert forall|a: int, b: int|
                        0 <= a < t.len() && 0 <= b < t.len() && a != b implies #[trigger] t[a].spec_key()
                        != #[trigger] t[b].spec_key() by {
                        if a < s.len() && b < s.len() {
                            assert(t[a] == s[a]);
                            assert(t[b] == s[b]);
                        } else if a < s.len() {
                            assert(t[a] == s[a]);
                        } else {
                            assert(t[b] == s[b]);
                        }
                    }
                    assert forall|j: int| 0 <= j < t.len() implies #[trigger] self.index@.contains_key(
                        t[j].spec_key(),
                    ) by {
                        if j < s.len() {
                            assert(t[j] == s[j]);
                        }
                    }
                    assert forall|k: u64| #[trigger] self.index@.contains_key(k) implies self.index@[k] < t.len()
                        && t[self.index@[k] as int].spec_key() == k by {
                        if k != key {
                            assert(t[self.index@[k] as int] == s[self.index@[k] as int]);
                        }
                    }
                }
                None
            },
        }
    }

    /// Inserts `value` at `index`, shifting later values back. The key must not be present.
    pub fn insert_at(&mut self, index: usize, value: V)
        requires
            old(self).wf(),
            index <= old(self)@.len(),
            !has_key(old(self)@, value.spec_key()),
        ensures
            final(self).wf(),
            final(self)@ == old(self)@.insert(index as int, value),
    {
        let ghost s = self@;
        self.items.insert(index, value);
        self.rebuild_index();
        assert forall|i: int, j: int|
            0 <= i < self@.len() && 0 <= j < self@.len() && i != j implies #[trigger] self@[i].spec_key()
            != #[trigger] self@[j].spec_key() by {
            if i != index && j != index {
                let oi = if i < index { i } else { i - 1 };
                let oj = if j < index { j } else { j - 1 };
                assert(self@[i] == s[oi]);
                assert(self@[j] == s[oj]);
            } else if i == index {
                let oj = if j < index { j } else { j - 1 };
                assert(self@[j] == s[oj]);
            } else {
                let oi = if i < index { i } else { i - 1 };
                assert(self@[i] == s[oi]);
            }
        }
    }

    /// Locates the value identified by `key`.
    pub fn get(&self, key: u64) -> (r: Option<&V>)
        requires
            self.wf(),
        ensures
            match r {
                Some(v) => exists|i: int|
                    0 <= i < self@.len() && self@[i] == *v && v.spec_key() == key,
                None => !has_key(self@, key),
            },
            match r {
                Some(v) => value_for(self@, key) == Some(*v),
                None => value_for(self@, key) is None,
            },
    {
        match self.position(key) {
            Some(i) => {
                proof {
                    lemma_value_for(self@, i as int);
                }
                Some(&self.items[i])
            },
            None => None,
        }
    }

    /// Locates the value identified by `key` for changing it; the returned value takes the
    /// place of the found one.
    pub fn get_mut(&mut self, key: u64) -> (r: Option<&mut V>)
        requires
            old(self).wf(),
        ensures
            match r {
                Some(v) => exists|i: int|
                    0 <= i < old(self)@.len() && old(self)@[i] == *v && v.spec_key() == key
                        && final(self)@ == old(self)@.update(i, *final(v)),
                None => !has_key(old(self)@, key) && final(self)@ == old(self)@,
            },
            match r {
                Some(v) => final(v).spec_key() == key ==> final(self).wf(),
                None => final(self).wf(),
            },
    {
        match self.position(key) {
            Some(i) => {
                proof {
                    lemma_same_key_update(self.index@, self.items@, i as int);
                }
                Some(&mut self.items[i])
            },
            None => None,
        }
    }

    /// The value at `index`, for changing it in place; whatever it becomes takes its place.
    /// Keeping its key keeps the store well-formed.
    pub fn get_index_mut(&mut self, index: usize) -> (r: &mut V)
        requires
            index < old(self)@.len(),
        ensures
            *r == old(self)@[index as int],
            final(self)@ == old(self)@.update(index as int, *final(r)),
            old(self).wf() && final(r).spec_key() == old(self)@[index as int].spec_key() ==> final(self).wf(),
    {
        proof {
            if self.wf() {
                lemma_same_key_update(self.index@, self.items@, index as int);
            }
        }
        &mut self.items[index]
    }

    /// Removes and returns the value identified by `key`; the last value takes its slot.
    pub fn remove(&mut self, key: u64) -> (r: Option<V>)
        requires
            old(self).wf(),
        ensures
            final(self).wf(),
            match r {
                Some(v) => exists|i: int|
                    0 <= i < old(self)@.len() && old(self)@[i] == v && v.spec_key() == key
                        && final(self)@ == swap_removed(old(self)@, i),
                None => !has_key(old(self)@, key) && final(self)@ == old(self)@,
            },
            r == value_for(old(self)@, key),
            final(self)@.len() == old(self)@.len() - (if r is Some { 1int } else { 0 }),
            value_for(final(self)@, key) is None,
            forall|k: u64| k != key ==> #[trigger] value_for(final(self)@, k) == value_for(old(self)@, k),
    {
        let ghost m0 = self.index@;
        let ghost s0 = self@;
        match self.index.remove(&key) {
            Some(i) => {
                let ghost s = self@;
                proof {
                    assert(s == s0);
                    lemma_value_for(s, i as int);
                }
                let v = self.items.swap_remove(i);
                if i < self.items.len() {
                    let moved = self.items[i].key();
                    self.index.insert(moved, i);
                }
                proof {
                    assert(self@ =~= swap_removed(s, i as int));
                    let t = self@;
                    let last = s.len() - 1;
                    assert forall|k: u64| #[trigger] self.index@.contains_key(k) implies self.index@[k] < t.len()
                        && t[self.index@[k] as int].spec_key() == k by {
                        if i < t.len() && k == s[last].spec_key() {
                            assert(t[i as int] == s[last]);
                        } else {
                            let p = m0[k] as int;
                            assert(k != key);
                            assert(s[p].spec_key() == k);
                            assert(p != i);
                            if p == last {
                                assert(i < t.len());
                            }
                            assert(t[p] == s[p]);
                        }
                    }
                    assert forall|j: int| 0 <= j < t.len() implies #[trigger] self.index@.contains_key(
                        t[j].spec_key(),
                    ) by {
                        if j != i {
                            assert(t[j] == s[j]);
                            assert(s[j].spec_key() != s[i as int].spec_key());
                            assert(m0.contains_key(s[j].spec_key()));
                        }
                    }
                    assert forall|a: int, b: int|
                        0 <= a < self@.len() && 0 <= b < self@.len() && a != b implies #[trigger] self@[a].spec_key()
                        != #[trigger] self@[b].spec_key() by {
                        let oa = if a == i { s.len() - 1 } else { a };
                        let ob = if b == i { s.len() - 1 } else { b };
                        assert(self@[a] == s[oa]);
                        assert(self@[b] == s[ob]);
                    }
                    let n = self@;
                    assert forall|k: u64| #[trigger] has_key(n, k) ==> has_key(s, k) && k != key by {
                        if has_key(n, k) {
                            let j = choose|j: int| 0 <= j < n.len() && #[trigger] n[j].spec_key() == k;
                            let oj = if j == i { s.len() - 1 } else { j };
                            assert(n[j] == s[oj]);
                            assert(s[oj].spec_key() == k);
                            if k == key {
                                assert(oj != i);
                            }
                        }
                    }
                    assert forall|k: u64| k != key implies #[trigger] value_for(n, k) == value_for(s, k) by {
                        if has_key(s, k) {
                            let j = choose|j: int| 0 <= j < s.len() && #[trigger] s[j].spec_key() == k;
                            lemma_value_for(s, j);
                            assert(j != i);
                            let nj = if j == s.len() - 1 { i as int } else { j };
                            assert(n[nj] == s[j]);
                            lemma_value_for(n, nj);
                        }
                    }
                }
                Some(v)
            },
            None => {
                proof {
                    assert forall|k: u64| k != key implies #[trigger] value_for(self@, k) == value_for(old(self)@, k) by {}
                }
                None
            },
        }
    }

    /// Removes and returns the value at `index`, keeping the order of the others.
    pub fn remove_at(&mut self, index: usize) -> (v: V)
        requires
            old(self).wf(),
            index < old(self)@.len(),
        ensures
            final(self).wf(),
            v == old(self)@[index as int],
            final(self)@ == old(self)@.remove(index as int),
    {
        let ghost s = self@;
        let v = self.items.remove(index);
        self.rebuild_index();
        proof {
            assert forall|a: int, b: int|
                0 <= a < self@.len() && 0 <= b < self@.len() && a != b implies #[trigger] self@[a].spec_key()
                != #[trigger] self@[b].spec_key() by {
                let oa = if a < index { a } else { a + 1 };
                let ob = if b < index { b } else { b + 1 };
                assert(self@[a] == s[oa]);
                assert(self@[b] == s[ob]);
            }
        }
        v
    }

    /// Returns the stored values as a slice.
    pub fn as_slice(&self) -> (s: &[V])
        ensures
            s@ == self@,
    {
        self.items.as_slice()
    }
}

} // verus!
