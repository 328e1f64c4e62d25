use vstd::prelude::*;
use vstd::std_specs::cmp::PartialEqSpec;

verus! {

/// The first index in `keys` that holds `k`.
pub open spec fn position_from(keys: Seq<Seq<char>>, k: Seq<char>, i: int) -> Option<int>
    decreases keys.len() - i,
{
    if i < 0 || i >= keys.len() {
        None
    } else if keys[i] == k {
        Some(i)
    } else {
        position_from(keys, k, i + 1)
    }
}

/// No key occurs twice.
pub open spec fn distinct_keys(keys: Seq<Seq<char>>) -> bool {
    forall|i: int, j: int| 0 <= i < keys.len() && 0 <= j < keys.len() && i != j ==> keys[i] != keys[j]
}

/// What `position_from` returns holds `k`, and nothing between `i` and it does.
pub proof fn lemma_position_from(keys: Seq<Seq<char>>, k: Seq<char>, i: int)
    requires
        0 <= i,
    ensures
        match position_from(keys, k, i) {
            Some(p) => i <= p < keys.len() && keys[p] == k && forall|j: int| i <= j < p ==> keys[j] != k,
            None => forall|j: int| i <= j < keys.len() ==> keys[j] != k,
        },
    decreases keys.len() - i,
{
    if i < keys.len() && keys[i] != k {
        lemma_position_from(keys, k, i + 1);
    }
}

/// Where a key is first found in a prefix one longer.
pub proof fn lemma_position_prefix(keys: Seq<Seq<char>>, q: Seq<char>, i: int)
    requires
        0 <= i < keys.len(),
    ensures
        position_from(keys.take(i + 1), q, 0) == match position_from(keys.take(i), q, 0) {
            Some(j) => Some(j),
            None => if keys[i] == q { Some(i) } else { None },
        },
{
    let a = keys.take(i);
    let b = keys.take(i + 1);
    lemma_position_from(a, q, 0);
    lemma_position_from(b, q, 0);
    assert forall|j: int| 0 <= j < i implies #[trigger] b[j] == a[j] by {}
    assert(b[i] == keys[i]);
}

/// The keys of a sequence of entries.
pub open spec fn entry_keys<A>(p: Seq<(Seq<char>, A)>) -> Seq<Seq<char>> {
    p.map_values(|e: (Seq<char>, A)| e.0)
}

/// The value of the first entry of `p` with key `k`.
pub open spec fn seq_lookup<A>(p: Seq<(Seq<char>, A)>, k: Seq<char>) -> Option<A> {
    match position_from(entry_keys(p), k, 0) {
        Some(i) => Some(p[i].1),
        None => None,
    }
}

/// `p` with `k` mapped to `v`: an existing entry keeps its place, a new one goes last.
pub open spec fn seq_with<A>(p: Seq<(Seq<char>, A)>, k: Seq<char>, v: A) -> Seq<(Seq<char>, A)> {
    match position_from(entry_keys(p), k, 0) {
        Some(i) => p.update(i, (p[i].0, v)),
        None => p.push((k, v)),
    }
}

/// `p` without the entry of `k`.
pub open spec fn seq_without<A>(p: Seq<(Seq<char>, A)>, k: Seq<char>) -> Seq<(Seq<char>, A)> {
    match position_from(entry_keys(p), k, 0) {
        Some(i) => p.remove(i),
        None => p,
    }
}

/// In entries with distinct keys, the entry at `j` is the one `seq_lookup` finds.
pub proof fn lemma_seq_lookup<A>(p: Seq<(Seq<char>, A)>, k: Seq<char>)
    requires
        distinct_keys(entry_keys(p)),
    ensures
        forall|j: int| 0 <= j < p.len() && p[j].0 == k ==> position_from(entry_keys(p), k, 0) == Some(j),
        match position_from(entry_keys(p), k, 0) {
            Some(i) => 0 <= i < p.len() && p[i].0 == k,
            None => forall|j: int| 0 <= j < p.len() ==> p[j].0 != k,
        },
{
    lemma_position_from(entry_keys(p), k, 0);
    assert forall|j: int| 0 <= j < p.len() && p[j].0 == k implies position_from(entry_keys(p), k, 0) == Some(j) by {
        assert(entry_keys(p)[j] == k);
    }
    assert forall|j: int| 0 <= j < p.len() implies #[trigger] p[j].0 == entry_keys(p)[j] by {}
}

/// Storing a key keeps the keys distinct and changes only its lookup.
pub proof fn lemma_seq_with<A>(p: Seq<(Seq<char>, A)>, k: Seq<char>, v: A)
    requires
        distinct_keys(entry_keys(p)),
    ensures
        distinct_keys(entry_keys(seq_with(p, k, v))),
        forall|q: Seq<char>| #[trigger] seq_lookup(seq_with(p, k, v), q) == if q == k { Some(v) } else { seq_lookup(p, q) },
{
    let r = seq_with(p, k, v);
    lemma_seq_lookup(p, k);
    match position_from(entry_keys(p), k, 0) {
        Some(i) => {
            assert(entry_keys(r) =~= entry_keys(p));
        },
        None => {
            assert(entry_keys(r) =~= entry_keys(p).push(k));
        },
    }
    assert forall|q: Seq<char>| #[trigger] seq_lookup(r, q) == if q == k { Some(v) } else { seq_lookup(p, q) } by {
        lemma_seq_lookup(p, q);
        lemma_seq_lookup(r, q);
        if let Some(j) = position_from(entry_keys(r), q, 0) {
            if j < p.len() {
                assert(r[j].0 == p[j].0);
            }
        }
        if let Some(j) = position_from(entry_keys(p), q, 0) {
            assert(r[j].0 == p[j].0);
        }
        if q == k {
            if let Some(i) = position_from(entry_keys(p), k, 0) {
                assert(r[i].0 == k);
            } else {
                assert(r[p.len() as int].0 == k);
            }
        }
    }
}

/// Removing a key keeps the keys distinct and changes only its lookup.
pub proof fn lemma_seq_without<A>(p: Seq<(Seq<char>, A)>, k: Seq<char>)
    requires
        distinct_keys(entry_keys(p)),
    ensures
        distinct_keys(entry_keys(seq_without(p, k))),
        forall|q: Seq<char>| #[trigger] seq_lookup(seq_without(p, k), q) == if q == k { None } else { seq_lookup(p, q) },
{
    let r = seq_without(p, k);
    lemma_seq_lookup(p, k);
    if let Some(i) = position_from(entry_keys(p), k, 0) {
        assert(entry_keys(r) =~= entry_keys(p).remove(i));
    }
    assert forall|q: Seq<char>| #[trigger] seq_lookup(r, q) == if q == k { None } else { seq_lookup(p, q) } by {
        lemma_seq_lookup(p, q);
        lemma_seq_lookup(r, q);
        if let Some(i) = position_from(entry_keys(p), k, 0) {
            if let Some(j) = position_from(entry_keys(r), q, 0) {
                if j < i {
                    assert(r[j] == p[j]);
                } else {
                    assert(r[j] == p[j + 1]);
                }
            }
            if let Some(j) = position_from(entry_keys(p), q, 0) {
                if q != k {
                    if j < i {
                        assert(r[j] == p[j]);
                    } else {
                        assert(r[j - 1] == p[j]);
                    }
                }
            }
        }
    }
}

/// A map from strings to values that keeps its entries in the order in which
/// their keys were first inserted; no key occurs twice.
#[derive(Debug)]
pub struct StringMap<T> {
    entries: Vec<(String, T)>,
}

impl<T> View for StringMap<T> {
    type V = Seq<(Seq<char>, T)>;

    closed spec fn view(&self) -> Seq<(Seq<char>, T)> {
        self.entries@.map_values(|e: (String, T)| (e.0@, e.1))
    }
}

impl<T> StringMap<T> {
    /// No key occurs twice.
    #[verifier::type_invariant]
    pub open spec fn wf(self) -> bool {
        distinct_keys(self@.map_values(|e: (Seq<char>, T)| e.0))
    }

    /// The keys, in order.
    pub open spec fn keys(self) -> Seq<Seq<char>> {
        self@.map_values(|e: (Seq<char>, T)| e.0)
    }

    /// The index of the entry for `k`.
    pub open spec fn index_of(self, k: Seq<char>) -> Option<int> {
        position_from(self.keys(), k, 0)
    }

    /// The value stored for `k`.
    pub open spec fn lookup(self, k: Seq<char>) -> Option<T> {
        match self.index_of(k) {
            Some(i) => Some(self@[i].1),
            None => None,
        }
    }

    /// `k` has an entry.
    pub open spec fn has(self, k: Seq<char>) -> bool {
        self.index_of(k) is Some
    }

    /// The entry at index `i` is the entry for its key.
    pub proof fn lemma_index_of(&self, k: Seq<char>)
        requires
            self.wf(),
        ensures
            match self.index_of(k) {
                Some(i) => 0 <= i < self@.len() && self@[i].0 == k,
                None => forall|j: int| 0 <= j < self@.len() ==> self@[j].0 != k,
            },
            forall|j: int| 0 <= j < self@.len() && self@[j].0 == k ==> self.index_of(k) == Some(j),
    {
        lemma_position_from(self.keys(), k, 0);
        assert forall|j: int| 0 <= j < self@.len() && self@[j].0 == k implies self.index_of(k) == Some(j) by {
            assert(self.keys()[j] == k);
        }
        assert forall|j: int| 0 <= j < self@.len() implies #[trigger] self@[j].0 == self.keys()[j] by {}
    }

    /// Each value of the map is smaller than the map.
    pub proof fn lemma_value_decreases(&self, i: int)
        requires
            0 <= i < self@.len(),
        ensures
            decreases_to!(*self => self@[i].1),
    {
        assert(decreases_to!(*self => self.entries));
        assert(decreases_to!(self.entries => self.entries@[i]));
        assert(decreases_to!(self.entries@[i] => self.entries@[i].1));
        assert(self@[i].1 == self.entries@[i].1);
    }

    proof fn lemma_lookups_after_update(self, prev: Self, i: int, k: Seq<char>, v: T)
        requires
            self.wf(),
            prev.wf(),
            0 <= i < prev@.len(),
            prev@[i].0 == k,
            self@ == prev@.update(i, (prev@[i].0, v)),
        ensures
            forall|q: Seq<char>| #[trigger] self.lookup(q) == if q == k { Some(v) } else { prev.lookup(q) },
            self.has(k),
    {
        assert(self.keys() =~= prev.keys());
        assert(self@[i].0 == k);
        self.lemma_index_of(k);
        assert forall|q: Seq<char>| #[trigger] self.lookup(q) == if q == k { Some(v) } else { prev.lookup(q) } by {
            assert(self.index_of(q) == prev.index_of(q));
            self.lemma_index_of(q);
            if let Some(j) = self.index_of(q) {
                if j != i {
                    assert(self@[j] == prev@[j]);
                }
            }
        }
    }

    proof fn lemma_lookups_after_push(self, prev: Self, k: Seq<char>, v: T)
        requires
            self.wf(),
            prev.wf(),
            self@ == prev@.push((k, v)),
        ensures
            forall|q: Seq<char>| #[trigger] self.lookup(q) == if q == k { Some(v) } else { prev.lookup(q) },
            self.has(k),
    {
        assert forall|q: Seq<char>| #[trigger] self.lookup(q) == if q == k { Some(v) } else { prev.lookup(q) } by {
            self.lemma_index_of(q);
            prev.lemma_index_of(q);
            if q != k {
                if let Some(j) = self.index_of(q) {
                    assert(j != prev@.len());
                    assert(self@[j] == prev@[j]);
                    assert(prev@[j].0 == q);
                }
                if let Some(p) = prev.index_of(q) {
                    assert(self@[p] == prev@[p]);
                    assert(self@[p].0 == q);
                }
            } else {
                assert(self@[prev@.len() as int].0 == k);
            }
        }
        self.lemma_index_of(k);
        assert(self@[prev@.len() as int].0 == k);
    }

    proof fn lemma_lookups_after_remove(self, prev: Self, i: int, k: Seq<char>)
        requires
            self.wf(),
            prev.wf(),
            0 <= i < prev@.len(),
            prev@[i].0 == k,
            self@ == prev@.remove(i),
        ensures
            forall|q: Seq<char>| #[trigger] self.lookup(q) == if q == k { None } else { prev.lookup(q) },
    {
        assert forall|q: Seq<char>| #[trigger] self.lookup(q) == if q == k { None } else { prev.lookup(q) } by {
            self.lemma_index_of(q);
            prev.lemma_index_of(q);
            if let Some(j) = self.index_of(q) {
                if j < i {
                    assert(self@[j] == prev@[j]);
                } else {
                    assert(self@[j] == prev@[j + 1]);
                }
            }
            if let Some(j) = prev.index_of(q) {
                if q != k {
                    if j < i {
                        assert(self@[j] == prev@[j]);
                    } else {
                        assert(j != i);
                        assert(self@[j - 1] == prev@[j]);
                    }
                }
            }
        }
    }

    /// An empty map.
    pub fn new() -> (r: Self)
        ensures
            r@ == Seq::<(Seq<char>, T)>::empty(),
    {
        let r = StringMap { entries: Vec::new() };
        assert(r@ =~= Seq::<(Seq<char>, T)>::empty());
        r
    }

    /// The number of entries.
    pub fn len(&self) -> (r: usize)
        ensures
            r == self@.len(),
    {
        self.entries.len()
    }

    /// Whether the map has no entries.
    pub fn is_empty(&self) -> (r: bool)
        ensures
            r == (self@.len() == 0),
    {
        self.entries.len() == 0
    }

    /// The key and value of the entry at index `i`.
    pub fn entry_at(&self, i: usize) -> (r: (&String, &T))
        requires
            i < self@.len(),
        ensures
            r.0@ == self@[i as int].0,
            *r.1 == self@[i as int].1,
    {
        let e = &self.entries[i];
        (&e.0, &e.1)
    }

    /// The index of the entry for `key`.
    pub fn find(&self, key: &str) -> (r: Option<usize>)
        ensures
            r is Some <==> self.index_of(key@) is Some,
            r matches Some(i) ==> self.index_of(key@) == Some(i as int),
    {
        let mut i: usize = 0;
        while i < self.entries.len()
            invariant
                i <= self@.len(),
                self.index_of(key@) == position_from(self.keys(), key@, i as int),
            decreases self@.len() - i,
        {
            let e = &self.entries[i];
            assert(self.keys()[i as int] == self.entries@[i as int].0@);
            if crate::text::same_text(e.0.as_str(), key) {
                return Some(i);
            }
            i += 1;
        }
        None
    }

    /// The value stored for `key`.
    pub fn get(&self, key: &str) -> (r: Option<&T>)
        ensures
            match r {
                Some(v) => self.lookup(key@) == Some(*v),
                None => self.lookup(key@) is None,
            },
    {
        proof {
            use_type_invariant(self);
            self.lemma_index_of(key@);
        }
        match self.find(key) {
            Some(i) => {
                assert(self@[i as int].1 == self.entries@[i as int].1);
                Some(&self.entries[i].1)
            },
            None => None,
        }
    }

    /// Whether `key` has an entry.
    pub fn contains_key(&self, key: &str) -> (r: bool)
        ensures
            r == self.has(key@),
    {
        self.find(key).is_some()
    }

    /// Stores `value` for `key`: an existing entry keeps its place and its key
    /// and takes the new value; a new key goes last. Returns the value it replaced.
    pub fn insert(&mut self, key: String, value: T) -> (r: Option<T>)
        ensures
            forall|q: Seq<char>| #[trigger] final(self).lookup(q) == if q == key@ { Some(value) } else { old(self).lookup(q) },
            final(self).has(key@),
            match old(self).index_of(key@) {
                Some(i) => {
                    &&& final(self)@ == old(self)@.update(i, (old(self)@[i].0, value))
                    &&& r == Some(old(self)@[i].1)
                },
                None => {
                    &&& final(self)@ == old(self)@.push((key@, value))
                    &&& r is None
                },
            },
    {
        proof {
            use_type_invariant(&*self);
            self.lemma_index_of(key@);
        }
        match self.find(key.as_str()) {
            Some(i) => {
                let k = self.entries[i].0.clone();
                let mut es: Vec<(String, T)> = Vec::new();
                std::mem::swap(&mut es, &mut self.entries);
                let (_, prev) = replace_at(&mut es, i, (k, value));
                proof {
                    let ghost v = es@.map_values(|e: (String, T)| (e.0@, e.1));
                    assert(v =~= old(self)@.update(i as int, (old(self)@[i as int].0, value)));
                    assert(v.map_values(|e: (Seq<char>, T)| e.0) =~= old(self).keys());
                }
                self.entries = es;
                proof {
                    assert(self@ =~= old(self)@.update(i as int, (old(self)@[i as int].0, value)));
                    assert(self.keys() =~= old(self).keys());
                    self.lemma_lookups_after_update(*old(self), i as int, key@, value);
                }
                Some(prev)
            },
            None => {
                let mut es: Vec<(String, T)> = Vec::new();
                std::mem::swap(&mut es, &mut self.entries);
                es.push((key, value));
                proof {
                    let ghost v = es@.map_values(|e: (String, T)| (e.0@, e.1));
                    assert(v =~= old(self)@.push((key@, value)));
                    assert(v.map_values(|e: (Seq<char>, T)| e.0) =~= old(self).keys().push(key@));
                    assert(distinct_keys(v.map_values(|e: (Seq<char>, T)| e.0)));
                }
                self.entries = es;
                proof {
                    assert(self@ =~= old(self)@.push((key@, value)));
                    assert(self.keys() =~= old(self).keys().push(key@));
                    self.lemma_lookups_after_push(*old(self), key@, value);
                }
                None
            },
        }
    }

    /// Removes the entry for `key`, keeping the order of the others. Returns the
    /// value it held.
    pub fn remove(&mut self, key: &str) -> (r: Option<T>)
        ensures
            forall|q: Seq<char>| #[trigger] final(self).lookup(q) == if q == key@ { None } else { old(self).lookup(q) },
            match old(self).index_of(key@) {
                Some(i) => {
                    &&& final(self)@ == old(self)@.remove(i)
                    &&& r == Some(old(self)@[i].1)
                },
                None => {
                    &&& final(self)@ == old(self)@
                    &&& r is None
                },
            },
    {
        proof {
            use_type_invariant(&*self);
            self.lemma_index_of(key@);
        }
        match self.find(key) {
            Some(i) => {
                let mut es: Vec<(String, T)> = Vec::new();
                std::mem::swap(&mut es, &mut self.entries);
                let (_, v) = es.remove(i);
                proof {
                    let ghost w = es@.map_values(|e: (String, T)| (e.0@, e.1));
                    assert(w =~= old(self)@.remove(i as int));
                    assert(w.map_values(|e: (Seq<char>, T)| e.0) =~= old(self).keys().remove(i as int));
                }
                self.entries = es;
                proof {
                    assert(self@ =~= old(self)@.remove(i as int));
                    assert(self.keys() =~= old(self).keys().remove(i as int));
                    self.lemma_lookups_after_remove(*old(self), i as int, key@);
                }
                Some(v)
            },
            None => None,
        }
    }

    /// Removes every entry.
    pub fn clear(&mut self)
        ensures
            final(self)@ == Seq::<(Seq<char>, T)>::empty(),
    {
        self.entries = Vec::new();
        assert(self@ =~= Seq::<(Seq<char>, T)>::empty());
    }
}

/// Replaces the element at index `i` of `v` with `x`, returning the old element.
fn replace_at<A>(v: &mut Vec<A>, i: usize, x: A) -> (r: A)
    requires
        i < old(v)@.len(),
    ensures
        final(v)@ == old(v)@.update(i as int, x),
        r == old(v)@[i as int],
{
    let r = v.remove(i);
    v.insert(i, x);
    assert(v@ =~= old(v)@.update(i as int, x));
    r
}

impl<T: Clone> Clone for StringMap<T> {
    /// A copy with the same keys in the same order, each value cloned.
    fn clone(&self) -> (r: Self)
        ensures
            r.keys() == self.keys(),
            r@.len() == self@.len(),
            forall|i: int| 0 <= i < r@.len() ==> cloned::<T>(self@[i].1, #[trigger] r@[i].1),
    {
        proof { use_type_invariant(self); }
        let mut entries: Vec<(String, T)> = Vec::new();
        let mut i: usize = 0;
        while i < self.entries.len()
            invariant
                i <= self@.len(),
                entries@.map_values(|e: (String, T)| e.0@) =~= self.keys().take(i as int),
                entries@.len() == i,
                forall|j: int| 0 <= j < i ==> cloned::<T>(self@[j].1, #[trigger] entries@[j].1),
            decreases self@.len() - i,
        {
            let e = &self.entries[i];
            let ghost prev = entries@;
            let v = e.1.clone();
            assert(self@[i as int].1 == self.entries@[i as int].1);
            entries.push((e.0.clone(), v));
            assert(self.keys()[i as int] == self.entries@[i as int].0@);
            assert(entries@.map_values(|e: (String, T)| e.0@) =~= prev.map_values(|e: (String, T)| e.0@).push(self.keys()[i as int]));
            assert(self.keys().take(i + 1) =~= self.keys().take(i as int).push(self.keys()[i as int]));
            i += 1;
        }
        assert(self.keys().take(self@.len() as int) =~= self.keys());
        assert(entries@.map_values(|e: (String, T)| (e.0@, e.1)).map_values(|e: (Seq<char>, T)| e.0) =~= entries@.map_values(|e: (String, T)| e.0@));
        StringMap { entries }
    }
}


/// Two maps hold the same keys, each with values that compare equal; the
/// order of the entries does not matter.
pub open spec fn same_bindings<T: PartialEq>(a: StringMap<T>, b: StringMap<T>) -> bool {
    &&& a@.len() == b@.len()
    &&& forall|i: int| 0 <= i < a@.len() ==> match b.lookup(#[trigger] a@[i].0) {
        Some(v) => a@[i].1.eq_spec(&v),
        None => false,
    }
}

impl<T: PartialEq> PartialEq for StringMap<T> {
    /// Whether the maps hold the same bindings, in any order.
    fn eq(&self, other: &Self) -> (r: bool) {
        if self.entries.len() != other.entries.len() {
            return false;
        }
        let mut i: usize = 0;
        while i < self.entries.len()
            invariant
                i <= self@.len(),
                self@.len() == other@.len(),
                forall|j: int| 0 <= j < i ==> (other.lookup(#[trigger] self@[j].0) is Some),
                T::obeys_eq_spec() ==> forall|j: int| 0 <= j < i ==> match other.lookup(#[trigger] self@[j].0) {
                    Some(v) => self@[j].1.eq_spec(&v),
                    None => false,
                },
            decreases self@.len() - i,
        {
            let e = &self.entries[i];
            assert(self@[i as int] == (e.0@, e.1));
            match other.get(e.0.as_str()) {
                Some(v) => {
                    if !e.1.eq(v) {
                        proof {
                            if T::obeys_eq_spec() {
                                assert(!self@[i as int].1.eq_spec(v));
                                assert(other.lookup(self@[i as int].0) == Some(*v));
                                assert(!same_bindings(*self, *other));
                            }
                        }
                        return false;
                    }
                },
                None => {
                    assert(other.lookup(self@[i as int].0) is None);
                    assert(!same_bindings(*self, *other));
                    return false;
                },
            }
            i += 1;
        }
        true
    }
}

impl<T: PartialEq> vstd::std_specs::cmp::PartialEqSpecImpl for StringMap<T> {
    open spec fn obeys_eq_spec() -> bool {
        T::obeys_eq_spec()
    }

    open spec fn eq_spec(&self, other: &Self) -> bool {
        same_bindings(*self, *other)
    }
}

} // verus!
