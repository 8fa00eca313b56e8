use vstd::prelude::*;

verus! {

/// A finite map from names to values, in which each name occurs at most once.
///
/// Entries keep the order in which their names were first inserted.
pub struct NameMap<V> {
    entries: Vec<(String, V)>,
}

impl<V> NameMap<V> {
    #[verifier::type_invariant]
    closed spec fn names_unique(self) -> bool {
        forall|i: int, j: int|
            0 <= i < j < self.entries@.len() ==> #[trigger] self.entries@[i].0@
                != #[trigger] self.entries@[j].0@
    }

    /// Whether entry `i` exists and carries the name `k`.
    closed spec fn names_at(self, k: Seq<char>, i: int) -> bool {
        0 <= i < self.entries@.len() && self.entries@[i].0@ == k
    }

    /// The map from names to values that this collection holds.
    pub closed spec fn as_map(self) -> Map<Seq<char>, V> {
        Map::new(
            |k: Seq<char>| exists|i: int| self.names_at(k, i),
            |k: Seq<char>| self.entries@[choose|i: int| self.names_at(k, i)].1,
        )
    }

    /// Number of entries among the first `n` whose name is not in `p`.
    closed spec fn fresh_in(self, p: Set<Seq<char>>, n: int) -> nat
        decreases n,
    {
        if n <= 0 {
            0
        } else {
            self.fresh_in(p, n - 1) + if p.contains(self.entries@[n - 1].0@) {
                0nat
            } else {
                1nat
            }
        }
    }

    /// Number of names held here that are not in `p`.
    pub closed spec fn fresh_count(self, p: Set<Seq<char>>) -> nat {
        self.fresh_in(p, self.entries@.len() as int)
    }

    proof fn lemma_fresh_in_insert(self, p: Set<Seq<char>>, k: Seq<char>, n: int)
        requires
            !p.contains(k),
        ensures
            self.fresh_in(p.insert(k), n) <= self.fresh_in(p, n),
            (exists|i: int| 0 <= i < n && self.names_at(k, i)) ==> self.fresh_in(p.insert(k), n)
                < self.fresh_in(p, n),
        decreases n,
    {
        if n > 0 {
            self.lemma_fresh_in_insert(p, k, n - 1);
            if exists|i: int| 0 <= i < n && self.names_at(k, i) {
                let i = choose|i: int| 0 <= i < n && self.names_at(k, i);
                if i < n - 1 {
                    assert(exists|i: int| 0 <= i < n - 1 && self.names_at(k, i));
                }
            }
        }
    }

    /// Adding to `p` a name that is held here and not yet in `p` lowers the count.
    pub proof fn lemma_fresh_count_insert(self, p: Set<Seq<char>>, k: Seq<char>)
        requires
            self.as_map().contains_key(k),
            !p.contains(k),
        ensures
            self.fresh_count(p.insert(k)) < self.fresh_count(p),
    {
        let i = choose|i: int| self.names_at(k, i);
        assert(0 <= i < self.entries@.len() && self.names_at(k, i));
        self.lemma_fresh_in_insert(p, k, self.entries@.len() as int);
    }

    proof fn lemma_fresh_in_mono(self, p: Set<Seq<char>>, q: Set<Seq<char>>, n: int)
        requires
            p.subset_of(q),
        ensures
            self.fresh_in(q, n) <= self.fresh_in(p, n),
        decreases n,
    {
        if n > 0 {
            self.lemma_fresh_in_mono(p, q, n - 1);
        }
    }

    /// Adding names to `p` never raises the count.
    pub proof fn lemma_fresh_count_mono(self, p: Set<Seq<char>>, q: Set<Seq<char>>)
        requires
            p.subset_of(q),
        ensures
            self.fresh_count(q) <= self.fresh_count(p),
    {
        self.lemma_fresh_in_mono(p, q, self.entries@.len() as int);
    }

    /// Number of names held.
    pub closed spec fn size(self) -> nat {
        self.entries@.len()
    }

    /// The name of the `i`-th entry.
    pub closed spec fn key_at(self, i: int) -> Seq<char> {
        self.entries@[i].0@
    }

    /// The names held are exactly those of the entries.
    pub proof fn lemma_keys(self)
        ensures
            forall|k: Seq<char>|
                #[trigger] self@.contains_key(k) <==> exists|i: int|
                    0 <= i < self.size() && #[trigger] self.key_at(i) == k,
    {
        assert forall|k: Seq<char>| #[trigger] self@.contains_key(k) implies exists|i: int|
            0 <= i < self.size() && #[trigger] self.key_at(i) == k by {
            let j = choose|j: int| self.names_at(k, j);
            assert(self.names_at(k, j));
            assert(self.key_at(j) == k);
        }
        assert forall|k: Seq<char>|
            (exists|i: int| 0 <= i < self.size() && #[trigger] self.key_at(i) == k) implies #[trigger] self@.contains_key(k) by {
            let i = choose|i: int| 0 <= i < self.size() && self.key_at(i) == k;
            assert(self.names_at(k, i));
        }
    }

    /// Number of names held.
    pub fn len(&self) -> (n: usize)
        ensures
            n == self.size(),
    {
        self.entries.len()
    }

    /// The `i`-th entry: its name and the value stored under it.
    pub fn entry_at(&self, i: usize) -> (r: (&String, &V))
        requires
            i < self.size(),
        ensures
            r.0@ == self.key_at(i as int),
            self@.contains_key(r.0@),
            self@[r.0@] == *r.1,
    {
        proof {
            use_type_invariant(self);
            let k = self.entries@[i as int].0@;
            assert(self.names_at(k, i as int));
            let j = choose|j: int| self.names_at(k, j);
            assert(self.names_at(k, j));
            assert(j == i as int);
        }
        (&self.entries[i].0, &self.entries[i].1)
    }

    /// An empty map.
    pub fn new() -> (m: Self)
        ensures
            m@ == Map::<Seq<char>, V>::empty(),
    {
        let m = NameMap { entries: Vec::new() };
        assert(m.as_map() =~= Map::<Seq<char>, V>::empty());
        m
    }

    /// The index of the entry named `key`, if any.
    fn find(&self, key: &String) -> (r: Option<usize>)
        ensures
            match r {
                Some(i) => self.names_at(key@, i as int),
                None => !self@.contains_key(key@),
            },
    {
        let mut i: usize = 0;
        while i < self.entries.len()
            invariant
                i <= self.entries@.len(),
                forall|j: int| 0 <= j < i ==> !self.names_at(key@, j),
            decreases self.entries@.len() - i,
        {
            if self.entries[i].0 == *key {
                return Some(i);
            }
            i = i + 1;
        }
        None
    }

    /// The value stored under `key`, if any.
    pub fn get(&self, key: &String) -> (r: Option<&V>)
        ensures
            r == if self@.contains_key(key@) {
                Some(&self@[key@])
            } else {
                None::<&V>
            },
    {
        proof {
            use_type_invariant(self);
        }
        match self.find(key) {
            Some(i) => {
                proof {
                    let j = choose|j: int| self.names_at(key@, j);
                    assert(self.names_at(key@, j));
                    assert(j == i as int);
                }
                Some(&self.entries[i].1)
            },
            None => None,
        }
    }

    /// Whether some value is stored under `key`.
    pub fn contains_key(&self, key: &String) -> (r: bool)
        ensures
            r == self@.contains_key(key@),
    {
        self.find(key).is_some()
    }

    /// Entries `new` are entries `old` with entry `i` set to (`k`, `value`), or with that
    /// entry appended when `i` is past the end: the map they hold is the old one with `k`
    /// mapped to `value`.
    proof fn lemma_insert_map(old: Self, new: Self, i: int, k: Seq<char>, value: V)
        requires
            old.names_unique(),
            new.names_unique(),
            0 <= i <= old.entries@.len(),
            new.entries@.len() == if i < old.entries@.len() {
                old.entries@.len()
            } else {
                old.entries@.len() + 1
            },
            new.entries@[i].0@ == k,
            new.entries@[i].1 == value,
            i < old.entries@.len() ==> old.entries@[i].0@ == k,
            i == old.entries@.len() ==> !old.as_map().contains_key(k),
            forall|j: int| 0 <= j < old.entries@.len() && j != i ==> new.entries@[j] == old.entries@[j],
        ensures
            new.as_map() == old.as_map().insert(k, value),
    {
        assert(new.names_at(k, i));
        assert forall|q: Seq<char>|
            #![trigger new.as_map().contains_key(q)]
            new.as_map().contains_key(q) == old.as_map().insert(k, value).contains_key(q) by {
            if exists|j: int| old.names_at(q, j) {
                let j = choose|j: int| old.names_at(q, j);
                assert(new.names_at(q, j));
            }
            if exists|j: int| new.names_at(q, j) {
                let j = choose|j: int| new.names_at(q, j);
                if j != i {
                    assert(old.names_at(q, j));
                }
            }
        }
        assert forall|q: Seq<char>| #[trigger]
            new.as_map().contains_key(q) implies new.as_map()[q] == old.as_map().insert(k, value)[q] by {
            let j = choose|j: int| new.names_at(q, j);
            assert(new.names_at(q, j));
            if q == k {
                assert(j == i);
            } else {
                assert(j != i);
                assert(old.names_at(q, j));
                let j2 = choose|j2: int| old.names_at(q, j2);
                assert(old.names_at(q, j2));
                assert(j2 == j);
            }
        }
        assert(new.as_map() =~= old.as_map().insert(k, value));
    }

    /// Stores `value` under `key`, replacing what was stored there. Returns whether the
    /// name was new.
    pub fn insert(&mut self, key: String, value: V) -> (was_new: bool)
        ensures
            final(self)@ == old(self)@.insert(key@, value),
            was_new == !old(self)@.contains_key(key@),
    {
        proof {
            use_type_invariant(&*self);
        }
        let ghost k = key@;
        let ghost old_entries = self.entries@;
        let found = self.find(&key);
        let mut entries: Vec<(String, V)> = Vec::new();
        std::mem::swap(&mut entries, &mut self.entries);
        let ghost i: int;
        let was_new = match found {
            Some(j) => {
                entries.set(j, (key, value));
                proof {
                    i = j as int;
                    assert forall|a: int, b: int|
                        0 <= a < b < entries@.len() implies #[trigger] entries@[a].0@
                        != #[trigger] entries@[b].0@ by {
                        assert(old_entries[a].0@ != old_entries[b].0@);
                    }
                }
                false
            },
            None => {
                entries.push((key, value));
                proof {
                    i = old_entries.len() as int;
                    assert forall|a: int, b: int|
                        0 <= a < b < entries@.len() implies #[trigger] entries@[a].0@
                        != #[trigger] entries@[b].0@ by {
                        if b == i {
                            assert(!old(self).names_at(k, a));
                        } else {
                            assert(old_entries[a].0@ != old_entries[b].0@);
                        }
                    }
                }
                true
            },
        };
        self.entries = entries;
        proof {
            use_type_invariant(&*self);
            Self::lemma_insert_map(*old(self), *self, i, k, value);
        }
        was_new
    }

    /// The entries, one per name.
    pub fn into_entries(self) -> (r: Vec<(String, V)>)
        ensures
            forall|i: int|
                0 <= i < r@.len() ==> self@.contains_key(#[trigger] r@[i].0@) && self@[r@[i].0@]
                    == r@[i].1,
            forall|k: Seq<char>|
                #[trigger] self@.contains_key(k) ==> exists|i: int| 0 <= i < r@.len() && r@[i].0@ == k,
            forall|i: int, j: int|
                0 <= i < j < r@.len() ==> #[trigger] r@[i].0@ != #[trigger] r@[j].0@,
    {
        proof {
            use_type_invariant(&self);
            assert forall|i: int| 0 <= i < self.entries@.len() implies self.as_map().contains_key(
                #[trigger] self.entries@[i].0@,
            ) && self.as_map()[self.entries@[i].0@] == self.entries@[i].1 by {
                let k = self.entries@[i].0@;
                assert(self.names_at(k, i));
                let j = choose|j: int| self.names_at(k, j);
                assert(self.names_at(k, j));
                assert(j == i);
            }
            assert forall|k: Seq<char>| #[trigger] self.as_map().contains_key(k) implies exists|i: int|
                0 <= i < self.entries@.len() && self.entries@[i].0@ == k by {
                let j = choose|j: int| self.names_at(k, j);
                assert(self.names_at(k, j));
            }
        }
        self.entries
    }
}

impl<V> View for NameMap<V> {
    type V = Map<Seq<char>, V>;

    open spec fn view(&self) -> Map<Seq<char>, V> {
        self.as_map()
    }
}

} // verus!
