//! A small map from strings to values that remembers the order in which its
//! keys first arrived.
//!
//! The pairing stores handled here hold a handful of adapters and devices,
//! so a vector of entries searched front to back is all that is needed, and
//! it can be walked in a fixed order.

use vstd::prelude::*;

verus! {

/// A map keyed by strings. No key occurs twice; a key keeps the position at
/// which it was first inserted.
#[derive(Debug)]
pub struct StrMap<V: View> {
    entries: Vec<(String, V)>,
}

spec fn distinct_keys<V>(s: Seq<(String, V)>) -> bool {
    forall|i: int, j: int| 0 <= i < j < s.len() ==> s[i].0@ != s[j].0@
}

spec fn has_key<V>(s: Seq<(String, V)>, k: Seq<char>) -> bool {
    exists|i: int| 0 <= i < s.len() && s[i].0@ == k
}

spec fn index_of_key<V>(s: Seq<(String, V)>, k: Seq<char>) -> int {
    choose|i: int| 0 <= i < s.len() && s[i].0@ == k
}

proof fn lemma_index_of_key<V>(s: Seq<(String, V)>, i: int)
    requires
        distinct_keys(s),
        0 <= i < s.len(),
    ensures
        has_key(s, s[i].0@),
        index_of_key(s, s[i].0@) == i,
{
    let j = index_of_key(s, s[i].0@);
    assert(0 <= j < s.len() && s[j].0@ == s[i].0@);
    if j < i {
        assert(s[j].0@ != s[i].0@);
    } else if i < j {
        assert(s[i].0@ != s[j].0@);
    }
}

impl<V: View> View for StrMap<V> {
    type V = Map<Seq<char>, V::V>;

    /// The map from each key's characters to its value's view.
    closed spec fn view(&self) -> Map<Seq<char>, V::V> {
        Map::new(
            |k: Seq<char>| has_key(self.entries@, k),
            |k: Seq<char>| self.entries@[index_of_key(self.entries@, k)].1@,
        )
    }
}

impl<V: View> StrMap<V> {
    #[verifier::type_invariant]
    spec fn inv(&self) -> bool {
        distinct_keys(self.entries@)
    }

    /// The keys in the order in which they were first inserted.
    pub closed spec fn keys(&self) -> Seq<Seq<char>> {
        Seq::new(self.entries@.len(), |i: int| self.entries@[i].0@)
    }

    /// The value that is stored under `k`, where `k` is a key.
    pub closed spec fn value_of(&self, k: Seq<char>) -> V {
        self.entries@[index_of_key(self.entries@, k)].1
    }

    /// The values in the order of their keys.
    pub closed spec fn values(&self) -> Seq<V> {
        Seq::new(self.entries@.len(), |i: int| self.entries@[i].1)
    }

    /// No key occurs twice. Every map that executable code holds is well
    /// formed; a proof about a map that it only imagines has to ask for it.
    pub closed spec fn well_formed(&self) -> bool {
        distinct_keys(self.entries@)
    }

    /// In a well-formed map the key order lists each key once, and the
    /// values stand in the order of their keys.
    pub proof fn lemma_entries(&self)
        requires
            self.well_formed(),
        ensures
            self.keys().no_duplicates(),
            self.values().len() == self.keys().len(),
            forall|i: int|
                0 <= i < self.keys().len() ==> self@.contains_key(#[trigger] self.keys()[i])
                    && self@[self.keys()[i]] == self.values()[i]@ && self.value_of(
                    self.keys()[i],
                ) == self.values()[i],
            forall|k: Seq<char>| self@.contains_key(k) <==> self.keys().contains(k),
    {
        self.lemma_keys_are_domain();
        assert forall|i: int| 0 <= i < self.keys().len() implies self@.contains_key(
            #[trigger] self.keys()[i],
        ) && self@[self.keys()[i]] == self.values()[i]@ && self.value_of(self.keys()[i])
            == self.values()[i] by {
            lemma_index_of_key(self.entries@, i);
        }
    }

    /// The map of the first `n` entries.
    pub open spec fn first_entries(&self, n: nat) -> Map<Seq<char>, V::V>
        decreases n,
    {
        if n == 0 {
            Map::empty()
        } else {
            self.first_entries((n - 1) as nat).insert(self.keys()[n - 1], self.values()[n - 1]@)
        }
    }

    /// The first `n` entries of a well-formed map are the map itself, cut
    /// down to its first `n` keys; all entries are the whole map.
    pub proof fn lemma_first_entries(&self, n: nat)
        requires
            self.well_formed(),
            n <= self.keys().len(),
        ensures
            forall|k: Seq<char>|
                #![trigger self.first_entries(n).contains_key(k)]
                self.first_entries(n).contains_key(k) <==> self.keys().take(n as int).contains(k),
            forall|k: Seq<char>|
                #![trigger self.first_entries(n)[k]]
                self.first_entries(n).contains_key(k) ==> self.first_entries(n)[k] == self@[k],
            n == self.keys().len() ==> self.first_entries(n) == self@,
        decreases n,
    {
        self.lemma_entries();
        let keys = self.keys();
        if n == 0 {
            assert(keys.take(0) =~= Seq::<Seq<char>>::empty());
        } else {
            let m = (n - 1) as nat;
            self.lemma_first_entries(m);
            lemma_prefix_step(keys, m as int);
            assert(self@.contains_key(keys[m as int]));
            assert(self@[keys[m as int]] == self.values()[m as int]@);
            assert forall|k: Seq<char>|
                #![trigger self.first_entries(n).contains_key(k)]
                self.first_entries(n).contains_key(k) <==> keys.take(n as int).contains(k) by {
                assert(self.first_entries(m).contains_key(k) <==> keys.take(m as int).contains(k));
            }
            assert forall|k: Seq<char>|
                #![trigger self.first_entries(n)[k]]
                self.first_entries(n).contains_key(k) implies self.first_entries(n)[k]
                == self@[k] by {
                if k != keys[m as int] {
                    assert(self.first_entries(m).contains_key(k));
                    assert(self.first_entries(m)[k] == self@[k]);
                }
            }
        }
        if n == keys.len() {
            assert(keys.take(n as int) == keys);
            assert(self.first_entries(n) =~= self@);
        }
    }

    /// The keys listed by [`Self::keys`] are exactly the keys of the view.
    pub proof fn lemma_keys_are_domain(&self)
        ensures
            forall|k: Seq<char>| self@.contains_key(k) <==> self.keys().contains(k),
    {
        assert forall|k: Seq<char>| self@.contains_key(k) <==> self.keys().contains(k) by {
            if self@.contains_key(k) {
                let i = index_of_key(self.entries@, k);
                assert(self.keys()[i] == k);
            }
            if self.keys().contains(k) {
                let i = choose|i: int| 0 <= i < self.keys().len() && self.keys()[i] == k;
                assert(self.entries@[i].0@ == k);
            }
        }
    }

    pub fn new() -> (r: Self)
        ensures
            r@ == Map::<Seq<char>, V::V>::empty(),
            r.keys() == Seq::<Seq<char>>::empty(),
    {
        let r = StrMap { entries: Vec::new() };
        assert(r@ =~= Map::<Seq<char>, V::V>::empty());
        assert(r.keys() =~= Seq::<Seq<char>>::empty());
        r
    }

    /// The number of keys. Calling it also tells the caller that the key
    /// order lists every key of the view once.
    pub fn len(&self) -> (n: usize)
        ensures
            n == self.keys().len(),
            n == self.values().len(),
            self.well_formed(),
            self.keys().no_duplicates(),
            forall|k: Seq<char>| self@.contains_key(k) <==> self.keys().contains(k),
    {
        proof {
            use_type_invariant(self);
            self.lemma_keys_are_domain();
        }
        self.entries.len()
    }

    pub fn is_empty(&self) -> (b: bool)
        ensures
            b == (self.keys().len() == 0),
            b == (self@ == Map::<Seq<char>, V::V>::empty()),
    {
        proof {
            self.lemma_keys_are_domain();
            if self.keys().len() == 0 {
                assert(self@ =~= Map::<Seq<char>, V::V>::empty());
            } else {
                assert(self.keys().contains(self.keys()[0]));
            }
        }
        self.entries.len() == 0
    }

    /// The position of `k` among the entries, or the number of entries when
    /// `k` is not a key.
    fn position(&self, k: &str) -> (i: usize)
        ensures
            i <= self.entries@.len(),
            i < self.entries@.len() ==> self.entries@[i as int].0@ == k@,
            i == self.entries@.len() ==> !has_key(self.entries@, k@),
    {
        let mut i: usize = 0;
        while i < self.entries.len() && !self.entries[i].0.as_str().eq(k)
            invariant
                i <= self.entries@.len(),
                forall|j: int| 0 <= j < i ==> self.entries@[j].0@ != k@,
            decreases self.entries@.len() - i,
        {
            i += 1;
        }
        i
    }

    pub fn contains_key(&self, k: &str) -> (b: bool)
        ensures
            b == self@.contains_key(k@),
    {
        let i = self.position(k);
        i < self.entries.len()
    }

    pub fn get(&self, k: &str) -> (r: Option<&V>)
        ensures
            match r {
                Some(v) => self@.contains_key(k@) && self@[k@] == v@ && *v == self.value_of(k@),
                None => !self@.contains_key(k@),
            },
    {
        let i = self.position(k);
        if i < self.entries.len() {
            proof {
                use_type_invariant(self);
                lemma_index_of_key(self.entries@, i as int);
            }
            Some(&self.entries[i].1)
        } else {
            None
        }
    }

    /// The key at position `i` of the key order.
    pub fn key_at(&self, i: usize) -> (k: &String)
        requires
            i < self.keys().len(),
        ensures
            k@ == self.keys()[i as int],
            self@.contains_key(k@),
    {
        proof {
            use_type_invariant(self);
            lemma_index_of_key(self.entries@, i as int);
        }
        &self.entries[i].0
    }

    /// The value stored under the key at position `i` of the key order.
    pub fn value_at(&self, i: usize) -> (v: &V)
        requires
            i < self.keys().len(),
        ensures
            self@.contains_key(self.keys()[i as int]),
            v@ == self@[self.keys()[i as int]],
            self.values().len() == self.keys().len(),
            *v == self.values()[i as int],
    {
        proof {
            use_type_invariant(self);
            lemma_index_of_key(self.entries@, i as int);
        }
        &self.entries[i].1
    }

    /// Stores `v` under `k` and hands back the value that `k` had before. A
    /// key that is already present keeps its place; a new key goes to the
    /// end.
    pub fn insert(&mut self, k: String, v: V) -> (previous: Option<V>)
        ensures
            final(self)@ == old(self)@.insert(k@, v@),
            final(self).keys() == if old(self)@.contains_key(k@) {
                old(self).keys()
            } else {
                old(self).keys().push(k@)
            },
            final(self).values() == if old(self)@.contains_key(k@) {
                old(self).values().update(old(self).keys().index_of(k@), v)
            } else {
                old(self).values().push(v)
            },
            match previous {
                Some(p) => old(self)@.contains_key(k@) && p@ == old(self)@[k@],
                None => !old(self)@.contains_key(k@),
            },
    {
        proof {
            use_type_invariant(&*self);
        }
        let i = self.position(k.as_str());
        let mut taken = StrMap { entries: Vec::new() };
        core::mem::swap(self, &mut taken);
        let mut entries = taken.entries;
        let ghost before = entries@;
        let ghost key = k@;
        let ghost value = v@;
        let previous = if i < entries.len() {
            proof {
                lemma_index_of_key(before, i as int);
            }
            let gone = entries.remove(i);
            entries.insert(i, (k, v));
            Some(gone.1)
        } else {
            entries.push((k, v));
            None
        };
        assert(entries@.len() == if i < before.len() { before.len() } else { before.len() + 1 });
        assert(forall|j: int| 0 <= j < before.len() && j != i ==> entries@[j] == before[j]);
        assert(distinct_keys(entries@));
        *self = StrMap { entries };
        proof {
            let after = self.entries@;
            assert(after[i as int].0@ == key);
            lemma_index_of_key(after, i as int);
            assert forall|q: Seq<char>| has_key(after, q) <==> (has_key(before, q) || q == key) by {
                if has_key(before, q) && q != key {
                    let j = index_of_key(before, q);
                    assert(after[j].0@ == q);
                }
                if has_key(after, q) && q != key {
                    let j = index_of_key(after, q);
                    assert(before[j].0@ == q);
                }
            }
            assert forall|q: Seq<char>| has_key(before, q) && q != key implies after[index_of_key(
                after,
                q,
            )].1@ == before[index_of_key(before, q)].1@ by {
                let j = index_of_key(before, q);
                assert(after[j].0@ == q);
                lemma_index_of_key(after, j);
            }
            assert(self@ =~= old(self)@.insert(key, value));
            if i < before.len() {
                assert(has_key(before, key));
                assert(self.keys() =~= old(self).keys());
                let at = old(self).keys().index_of(key);
                assert(old(self).keys()[i as int] == key);
                assert(0 <= at < before.len() && before[at].0@ == key);
                assert(at == i);
                assert(self.values() =~= old(self).values().update(at, after[i as int].1));
            } else {
                assert(self.keys() =~= old(self).keys().push(key));
                assert(self.values() =~= old(self).values().push(after[i as int].1));
            }
        }
        previous
    }
}

/// One step of a walk along a key order: what the first `i + 1` keys hold
/// beyond the first `i`.
pub proof fn lemma_prefix_step(keys: Seq<Seq<char>>, i: int)
    requires
        0 <= i < keys.len(),
        keys.no_duplicates(),
    ensures
        keys.take(i + 1) == keys.take(i).push(keys[i]),
        !keys.take(i).contains(keys[i]),
        forall|q: Seq<char>|
            keys.take(i + 1).contains(q) <==> (keys.take(i).contains(q) || q == keys[i]),
        keys.take(0) == Seq::<Seq<char>>::empty(),
        i + 1 == keys.len() ==> keys.take(i + 1) == keys,
{
    let shorter = keys.take(i);
    let longer = keys.take(i + 1);
    assert(longer =~= shorter.push(keys[i]));
    if shorter.contains(keys[i]) {
        let j = choose|j: int| 0 <= j < shorter.len() && shorter[j] == keys[i];
        assert(keys[j] == keys[i]);
    }
    assert forall|q: Seq<char>| longer.contains(q) <==> (shorter.contains(q) || q == keys[i]) by {
        if shorter.contains(q) {
            let j = choose|j: int| 0 <= j < shorter.len() && shorter[j] == q;
            assert(longer[j] == q);
        }
        if q == keys[i] {
            assert(longer[i] == q);
        }
        if longer.contains(q) {
            let j = choose|j: int| 0 <= j < longer.len() && longer[j] == q;
            if j < i {
                assert(shorter[j] == q);
            }
        }
    }
    assert(keys.take(0) =~= Seq::<Seq<char>>::empty());
    if i + 1 == keys.len() {
        assert(keys.take(i + 1) =~= keys);
    }
}

} // verus!
