use vstd::prelude::*;
use crate::cell::CellSignature;
use crate::route::Route;

verus! {

/// A value that can serve as a key: it can be compared and copied with
/// results stated over its view.
pub trait KeyView: View + Sized {
    fn key_eq(&self, other: &Self) -> (res: bool)
        ensures
            res == (self@ == other@),
    ;

    fn key_dup(&self) -> (res: Self)
        ensures
            res@ == self@,
    ;
}

impl KeyView for String {
    fn key_eq(&self, other: &Self) -> (res: bool) {
        *self == *other
    }

    fn key_dup(&self) -> (res: Self) {
        self.clone()
    }
}

impl KeyView for CellSignature {
    fn key_eq(&self, other: &Self) -> (res: bool) {
        self.same_as(other)
    }

    fn key_dup(&self) -> (res: Self) {
        self.duplicate()
    }
}

impl KeyView for Route {
    fn key_eq(&self, other: &Self) -> (res: bool) {
        self.same_as(other)
    }

    fn key_dup(&self) -> (res: Self) {
        self.duplicate()
    }
}

/// A finite map kept as a list of entries in insertion order, with no key
/// occurring twice.  Walking it visits the entries in the order in which
/// their keys were first inserted.
#[derive(Debug)]
pub struct KeyedMap<K: KeyView, V> {
    entries: Vec<(K, V)>,
}

impl<K: KeyView, V> KeyedMap<K, V> {
    /// The keys, in entry order.
    pub closed spec fn keys(&self) -> Seq<K::V> {
        self.entries@.map_values(|e: (K, V)| e.0@)
    }

    /// The values, in entry order.
    pub closed spec fn values(&self) -> Seq<V> {
        self.entries@.map_values(|e: (K, V)| e.1)
    }

    /// No key occurs twice.
    #[verifier::type_invariant]
    pub open spec fn inv(&self) -> bool {
        self.keys().no_duplicates()
    }

    /// Whether `k` is a key of the map.
    pub open spec fn has(&self, k: K::V) -> bool {
        self.keys().contains(k)
    }

    /// The value stored under `k` (meaningful when `self.has(k)`).
    pub open spec fn at(&self, k: K::V) -> V {
        self.values()[self.keys().index_of(k)]
    }

    /// The map from keys to values that the entries make up.
    pub open spec fn as_map(&self) -> Map<K::V, V> {
        Map::new(|k: K::V| self.has(k), |k: K::V| self.at(k))
    }

    /// The number of entries.
    pub closed spec fn size(&self) -> nat {
        self.entries@.len()
    }

    /// The key at position `i` is a key of the map, found at that position,
    /// with the value at that position.
    pub proof fn lemma_index(&self, k: K::V, i: int)
        requires
            self.keys().no_duplicates(),
            0 <= i < self.size(),
            self.keys()[i] == k,
        ensures
            self.has(k),
            self.keys().index_of(k) == i,
            self.at(k) == self.values()[i],
    {
        assert(self.keys().contains(k));
        let j = self.keys().index_of(k);
        assert(self.keys()[j] == k);
    }

    /// An empty map.
    pub fn new() -> (res: Self)
        ensures
            res.size() == 0,
            res.keys() == Seq::<K::V>::empty(),
            forall|k: K::V| !res.has(k),
    {
        let r = KeyedMap { entries: Vec::new() };
        proof {
            assert(r.keys() =~= Seq::<K::V>::empty());
        }
        r
    }

    /// The number of entries.
    pub fn len(&self) -> (res: usize)
        ensures
            res == self.size(),
    {
        self.entries.len()
    }

    /// The key of the `i`-th entry.
    pub fn key_at(&self, i: usize) -> (res: &K)
        requires
            i < self.size(),
        ensures
            res@ == self.keys()[i as int],
    {
        &self.entries[i].0
    }

    /// The value of the `i`-th entry.
    pub fn value_at(&self, i: usize) -> (res: &V)
        requires
            i < self.size(),
        ensures
            *res == self.values()[i as int],
    {
        &self.entries[i].1
    }

    /// The position of `k` among the keys, if present.
    pub fn find(&self, k: &K) -> (res: Option<usize>)
        ensures
            match res {
                Some(i) => i < self.size() && self.keys()[i as int] == k@ && self.has(k@)
                    && self.keys().index_of(k@) == i,
                None => !self.has(k@),
            },
    {
        proof {
            use_type_invariant(self);
        }
        let mut i: usize = 0;
        while i < self.entries.len()
            invariant
                i <= self.entries@.len(),
                self.keys().no_duplicates(),
                forall|j: int| 0 <= j < i ==> self.keys()[j] != k@,
            decreases self.entries.len() - i,
        {
            if self.entries[i].0.key_eq(k) {
                proof {
                    self.lemma_index(k@, i as int);
                }
                return Some(i);
            }
            i = i + 1;
        }
        None
    }

    /// Whether `k` is a key of the map.
    pub fn contains_key(&self, k: &K) -> (res: bool)
        ensures
            res == self.has(k@),
    {
        self.find(k).is_some()
    }

    /// The value stored under `k`, if any.
    pub fn get(&self, k: &K) -> (res: Option<&V>)
        ensures
            match res {
                Some(v) => self.has(k@) && *v == self.at(k@),
                None => !self.has(k@),
            },
    {
        match self.find(k) {
            Some(i) => Some(&self.entries[i].1),
            None => None,
        }
    }

    /// Adds an entry for a key the map does not have yet, at the end.
    pub fn push_entry(&mut self, k: K, v: V)
        requires
            !old(self).has(k@),
        ensures
            final(self).keys() == old(self).keys().push(k@),
            final(self).values() == old(self).values().push(v),
    {
        proof {
            use_type_invariant(&*self);
        }
        let ghost ok = old(self).keys();
        let ghost ov = old(self).values();
        let mut e: Vec<(K, V)> = Vec::new();
        std::mem::swap(&mut e, &mut self.entries);
        let ghost kv = k@;
        e.push((k, v));
        proof {
            assert(e@.map_values(|e: (K, V)| e.0@) =~= ok.push(kv));
            assert(ok.push(kv).no_duplicates()) by {
                assert forall|i: int, j: int| 0 <= i < ok.push(kv).len() && 0 <= j < ok.push(kv).len() && i != j
                    implies ok.push(kv)[i] != ok.push(kv)[j] by {
                    if i < ok.len() && j < ok.len() {
                        assert(ok[i] != ok[j]);
                    } else if i < ok.len() {
                        assert(ok.contains(ok[i]));
                    } else if j < ok.len() {
                        assert(ok.contains(ok[j]));
                    }
                }
            }
        }
        self.entries = e;
        proof {
            assert(self.keys() =~= ok.push(kv));
            assert(self.values() =~= ov.push(v));
        }
    }

    /// Stores `v` under `k`: an existing entry keeps its place and takes the
    /// new value, a new key is added at the end.
    pub fn insert(&mut self, k: K, v: V)
        ensures
            final(self).has(k@),
            final(self).at(k@) == v,
            forall|k2: K::V| k2 != k@ ==> (final(self).has(k2) == old(self).has(k2)),
            forall|k2: K::V| k2 != k@ && old(self).has(k2) ==> final(self).at(k2) == old(self).at(k2),
            old(self).has(k@) ==> final(self).keys() == old(self).keys(),
            !old(self).has(k@) ==> final(self).keys() == old(self).keys().push(k@),
            final(self).as_map() == old(self).as_map().insert(k@, v),
    {
        proof {
            use_type_invariant(&*self);
        }
        let ghost kv = k@;
        let ghost ok = old(self).keys();
        let ghost ov = old(self).values();
        match self.find(&k) {
            Some(i) => {
                let mut e: Vec<(K, V)> = Vec::new();
                std::mem::swap(&mut e, &mut self.entries);
                let _ = e.remove(i);
                e.insert(i, (k, v));
                proof {
                    assert(e@.map_values(|e: (K, V)| e.0@) =~= ok);
                }
                self.entries = e;
                proof {
                    assert(self.keys() =~= ok);
                    assert(self.values() =~= ov.update(i as int, v));
                    self.lemma_index(kv, i as int);
                    assert forall|k2: K::V| k2 != kv && old(self).has(k2) implies self.has(k2)
                        && self.at(k2) == old(self).at(k2) by {
                        let j = ok.index_of(k2);
                        old(self).lemma_index(k2, j);
                        self.lemma_index(k2, j);
                    }
                    assert forall|k2: K::V| k2 != kv && self.has(k2) implies old(self).has(k2) by {
                        let j = self.keys().index_of(k2);
                        assert(ok[j] == k2);
                    }
                }
            },
            None => {
                let mut e: Vec<(K, V)> = Vec::new();
                std::mem::swap(&mut e, &mut self.entries);
                e.push((k, v));
                proof {
                    assert(e@.map_values(|e: (K, V)| e.0@) =~= ok.push(kv));
                    assert(e@.map_values(|e: (K, V)| e.0@).no_duplicates());
                }
                self.entries = e;
                proof {
                    assert(self.keys() =~= ok.push(kv));
                    assert(self.values() =~= ov.push(v));
                    assert(self.keys().no_duplicates());
                    self.lemma_index(kv, ok.len() as int);
                    assert forall|k2: K::V| k2 != kv && old(self).has(k2) implies self.has(k2)
                        && self.at(k2) == old(self).at(k2) by {
                        let j = ok.index_of(k2);
                        old(self).lemma_index(k2, j);
                        self.lemma_index(k2, j);
                    }
                    assert forall|k2: K::V| k2 != kv && self.has(k2) implies old(self).has(k2) by {
                        let j = self.keys().index_of(k2);
                        assert(ok[j] == k2);
                    }
                }
            },
        }
        proof {
            assert(self.as_map() =~= old(self).as_map().insert(kv, v));
        }
    }

    /// Takes the entry of `k` out of the map, if there is one; the other
    /// entries keep their order.
    pub fn remove(&mut self, k: &K) -> (res: Option<V>)
        ensures
            match res {
                Some(v) => old(self).has(k@) && v == old(self).at(k@),
                None => !old(self).has(k@),
            },
            final(self).as_map() == old(self).as_map().remove(k@),
            forall|k2: K::V| final(self).has(k2) == (old(self).has(k2) && k2 != k@),
    {
        proof {
            use_type_invariant(&*self);
        }
        let ghost kv = k@;
        let ghost ok = old(self).keys();
        let ghost ov = old(self).values();
        match self.find(k) {
            Some(i) => {
                let mut e: Vec<(K, V)> = Vec::new();
                std::mem::swap(&mut e, &mut self.entries);
                let (_, v) = e.remove(i);
                proof {
                    assert(e@.map_values(|e: (K, V)| e.0@) =~= ok.remove(i as int));
                    assert forall|a: int, b: int| 0 <= a < b < ok.remove(i as int).len() implies
                        ok.remove(i as int)[a] != ok.remove(i as int)[b] by {
                        let a2 = if a < i { a } else { a + 1 };
                        let b2 = if b < i { b } else { b + 1 };
                        assert(ok[a2] != ok[b2]);
                    }
                }
                self.entries = e;
                proof {
                    assert(self.keys() =~= ok.remove(i as int));
                    assert(self.values() =~= ov.remove(i as int));
                    assert forall|k2: K::V| self.has(k2) == (old(self).has(k2) && k2 != kv) by {
                        if self.has(k2) {
                            let j = self.keys().index_of(k2);
                            let j2 = if j < i { j } else { j + 1 };
                            assert(ok[j2] == k2);
                            assert(ok[i as int] == kv);
                        }
                        if old(self).has(k2) && k2 != kv {
                            let j = ok.index_of(k2);
                            assert(j != i);
                            let j2 = if j < i { j } else { j - 1 };
                            assert(self.keys()[j2] == k2);
                        }
                    }
                    assert forall|k2: K::V| self.has(k2) implies self.at(k2) == old(self).at(k2) by {
                        let j = self.keys().index_of(k2);
                        self.lemma_index(k2, j);
                        let j2 = if j < i { j } else { j + 1 };
                        old(self).lemma_index(k2, j2);
                    }
                    assert(self.as_map() =~= old(self).as_map().remove(kv));
                }
                Some(v)
            },
            None => {
                proof {
                    assert(self.as_map() =~= old(self).as_map().remove(kv));
                }
                None
            },
        }
    }

    /// The entries, taken out of the map, in entry order.
    pub fn into_entries(self) -> (res: Vec<(K, V)>)
        ensures
            res@.len() == self.size(),
            forall|i: int| 0 <= i < res@.len() ==> (#[trigger] res@[i]).0@ == self.keys()[i] && res@[i].1 == self.values()[i],
    {
        self.entries
    }

    /// There are as many keys and values as entries.
    pub proof fn lemma_lengths(&self)
        ensures
            self.keys().len() == self.size(),
            self.values().len() == self.size(),
    {
    }

    /// The key and the value of the `i`-th entry.
    pub proof fn lemma_entry(&self, i: int)
        requires
            self.inv(),
            0 <= i < self.size(),
        ensures
            self.has(self.keys()[i]),
            self.keys().index_of(self.keys()[i]) == i,
            self.at(self.keys()[i]) == self.values()[i],
    {
        self.lemma_index(self.keys()[i], i);
    }

    /// Every key of the map is the key of some entry.
    pub proof fn lemma_key_index(&self, k: K::V)
        requires
            self.inv(),
            self.has(k),
        ensures
            0 <= self.keys().index_of(k) < self.size(),
            self.keys()[self.keys().index_of(k)] == k,
            self.at(k) == self.values()[self.keys().index_of(k)],
    {
        self.lemma_index(k, self.keys().index_of(k));
    }
}

/// A finite set kept as a list of members in insertion order, with no
/// member occurring twice.
#[derive(Debug)]
pub struct KeyedSet<K: KeyView> {
    members: Vec<K>,
}

impl<K: KeyView> KeyedSet<K> {
    /// The members, in insertion order.
    pub closed spec fn elems(&self) -> Seq<K::V> {
        self.members@.map_values(|m: K| m@)
    }

    /// No member occurs twice.
    #[verifier::type_invariant]
    pub open spec fn inv(&self) -> bool {
        self.elems().no_duplicates()
    }

    /// Whether `k` is a member.
    pub open spec fn has(&self, k: K::V) -> bool {
        self.elems().contains(k)
    }

    /// An empty set.
    pub fn new() -> (res: Self)
        ensures
            res.elems() == Seq::<K::V>::empty(),
            forall|k: K::V| !res.has(k),
    {
        let r = KeyedSet { members: Vec::new() };
        proof {
            assert(r.elems() =~= Seq::<K::V>::empty());
        }
        r
    }

    /// The members as a set.
    pub open spec fn as_set(&self) -> Set<K::V> {
        Set::new(|k: K::V| self.has(k))
    }

    /// The number of members.
    pub fn len(&self) -> (res: usize)
        ensures
            res == self.elems().len(),
    {
        self.members.len()
    }

    /// The `i`-th member.
    pub fn member_at(&self, i: usize) -> (res: &K)
        requires
            i < self.elems().len(),
        ensures
            res@ == self.elems()[i as int],
    {
        &self.members[i]
    }

    /// Whether `k` is a member.
    pub fn contains(&self, k: &K) -> (res: bool)
        ensures
            res == self.has(k@),
    {
        let mut i: usize = 0;
        while i < self.members.len()
            invariant
                i <= self.members@.len(),
                forall|j: int| 0 <= j < i ==> self.elems()[j] != k@,
            decreases self.members.len() - i,
        {
            if self.members[i].key_eq(k) {
                proof {
                    assert(self.elems()[i as int] == k@);
                }
                return true;
            }
            i = i + 1;
        }
        false
    }

    /// Adds `k` at the end unless it is already a member.
    pub fn insert(&mut self, k: K)
        ensures
            old(self).has(k@) ==> final(self).elems() == old(self).elems(),
            !old(self).has(k@) ==> final(self).elems() == old(self).elems().push(k@),
            final(self).as_set() == old(self).as_set().insert(k@),
    {
        proof {
            use_type_invariant(&*self);
        }
        if !self.contains(&k) {
            let ghost ok = self.elems();
            let ghost kv = k@;
            let mut m: Vec<K> = Vec::new();
            std::mem::swap(&mut m, &mut self.members);
            m.push(k);
            proof {
                assert(m@.map_values(|x: K| x@) =~= ok.push(kv));
            }
            self.members = m;
        }
        proof {
            assert forall|x: K::V| self.has(x) == (old(self).has(x) || x == k@) by {
                if !old(self).has(k@) {
                    let e = old(self).elems();
                    if x == k@ {
                        assert(self.elems()[e.len() as int] == x);
                    }
                    if old(self).has(x) {
                        let j = e.index_of(x);
                        assert(self.elems()[j] == x);
                    }
                    if self.has(x) && x != k@ {
                        let j = self.elems().index_of(x);
                        assert(e[j] == x);
                    }
                }
            }
            assert(self.as_set() =~= old(self).as_set().insert(k@));
        }
    }

    /// The position of `k` among the members, if it is one.
    fn position_of(&self, k: &K) -> (res: Option<usize>)
        ensures
            match res {
                Some(i) => i < self.elems().len() && self.elems()[i as int] == k@,
                None => !self.has(k@),
            },
    {
        let mut i: usize = 0;
        while i < self.members.len()
            invariant
                i <= self.members@.len(),
                forall|j: int| 0 <= j < i ==> self.elems()[j] != k@,
            decreases self.members.len() - i,
        {
            if self.members[i].key_eq(k) {
                proof {
                    assert(self.elems()[i as int] == k@);
                }
                return Some(i);
            }
            i = i + 1;
        }
        None
    }

    /// Takes `k` out of the set, if it is a member; the other members keep
    /// their order.
    pub fn remove(&mut self, k: &K)
        ensures
            final(self).as_set() == old(self).as_set().remove(k@),
    {
        proof {
            use_type_invariant(&*self);
        }
        let ghost e = self.elems();
        let ghost kv = k@;
        match self.position_of(k) {
            Some(i) => {
                let mut m: Vec<K> = Vec::new();
                std::mem::swap(&mut m, &mut self.members);
                let _ = m.remove(i);
                proof {
                    assert(m@.map_values(|x: K| x@) =~= e.remove(i as int));
                    assert forall|a: int, b: int| 0 <= a < b < e.remove(i as int).len() implies
                        e.remove(i as int)[a] != e.remove(i as int)[b] by {
                        let a2 = if a < i { a } else { a + 1 };
                        let b2 = if b < i { b } else { b + 1 };
                        assert(e[a2] != e[b2]);
                    }
                }
                self.members = m;
                proof {
                    assert forall|x: K::V| self.has(x) == (e.contains(x) && x != kv) by {
                        if self.has(x) {
                            let j = self.elems().index_of(x);
                            let j2 = if j < i { j } else { j + 1 };
                            assert(e[j2] == x);
                        }
                        if e.contains(x) && x != kv {
                            let j = e.index_of(x);
                            assert(j != i);
                            let j2 = if j < i { j } else { j - 1 };
                            assert(self.elems()[j2] == x);
                        }
                    }
                    assert(self.as_set() =~= old(self).as_set().remove(kv));
                }
            },
            None => {
                proof {
                    assert(self.as_set() =~= old(self).as_set().remove(kv));
                }
            },
        }
    }
}

} // verus!
