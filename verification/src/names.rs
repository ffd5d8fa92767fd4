use crate::text::str_eq;
use std::sync::Arc;
use vstd::prelude::*;

verus! {

/// A finite set of names, kept without repetition in the order in which the
/// names first arrived. Each name is held once and handed out shared.
#[derive(Debug)]
pub struct NameSet {
    names: Vec<Arc<String>>,
}

impl View for NameSet {
    type V = Set<Seq<char>>;

    open spec fn view(&self) -> Set<Seq<char>> {
        self.items().to_set()
    }
}

impl NameSet {
    /// The names held, in arrival order.
    pub closed spec fn items(&self) -> Seq<Seq<char>> {
        self.names@.map_values(|s: Arc<String>| s@)
    }

    #[verifier::type_invariant]
    spec fn distinct(&self) -> bool {
        self.items().no_duplicates()
    }

    /// The set without any name.
    pub fn new() -> (r: Self)
        ensures
            r@ == Set::<Seq<char>>::empty(),
            r.items() == Seq::<Seq<char>>::empty(),
    {
        let r = NameSet { names: Vec::new() };
        assert(r.items() =~= Seq::<Seq<char>>::empty());
        assert(r@ =~= Set::<Seq<char>>::empty());
        r
    }

    /// How many names the set holds.
    pub fn len(&self) -> (n: usize)
        ensures
            n == self@.len(),
            n == self.items().len(),
            self@.finite(),
    {
        proof {
            use_type_invariant(self);
            self.items().unique_seq_to_set();
        }
        self.names.len()
    }

    /// Whether the set holds no name.
    pub fn is_empty(&self) -> (b: bool)
        ensures
            b == (self@ == Set::<Seq<char>>::empty()),
    {
        let n = self.len();
        proof {
            if n == 0 {
                assert(self@ =~= Set::<Seq<char>>::empty());
            } else {
                assert(self@.contains(self.items()[0]));
            }
        }
        n == 0
    }

    /// Where `name` stands in the arrival order, if the set holds it.
    fn position(&self, name: &str) -> (r: Option<usize>)
        ensures
            match r {
                Some(i) => i < self.items().len() && self.items()[i as int] == name@,
                None => !self@.contains(name@),
            },
    {
        let mut i: usize = 0;
        while i < self.names.len()
            invariant
                i <= self.names.len(),
                forall|j: int| 0 <= j < i ==> self.items()[j] != name@,
            decreases self.names.len() - i,
        {
            if str_eq(self.names[i].as_str(), name) {
                return Some(i);
            }
            i += 1;
        }
        None
    }

    /// Whether the set holds `name`.
    pub fn contains(&self, name: &str) -> (b: bool)
        ensures
            b == self@.contains(name@),
    {
        self.position(name).is_some()
    }

    /// The set's own copy of `name`, if the set holds it.
    pub fn get(&self, name: &str) -> (r: Option<&Arc<String>>)
        ensures
            match r {
                Some(s) => s@ == name@ && self@.contains(name@),
                None => !self@.contains(name@),
            },
    {
        match self.position(name) {
            Some(i) => Some(&self.names[i]),
            None => None,
        }
    }

    /// Adds `name`; returns whether it was new to the set.
    pub fn insert(&mut self, name: String) -> (fresh: bool)
        ensures
            final(self)@ == old(self)@.insert(name@),
            fresh == !old(self)@.contains(name@),
            final(self).items() == if fresh {
                old(self).items().push(name@)
            } else {
                old(self).items()
            },
    {
        self.insert_shared(Arc::new(name))
    }

    /// Adds the shared `name`; returns whether it was new to the set.
    pub fn insert_shared(&mut self, name: Arc<String>) -> (fresh: bool)
        ensures
            final(self)@ == old(self)@.insert(name@),
            fresh == !old(self)@.contains(name@),
            final(self).items() == if fresh {
                old(self).items().push(name@)
            } else {
                old(self).items()
            },
    {
        proof {
            use_type_invariant(&*self);
        }
        if self.contains(name.as_str()) {
            assert(self@.insert(name@) =~= self@);
            false
        } else {
            let ghost before = self.items();
            let ghost n = name@;
            let mut held: Vec<Arc<String>> = Vec::new();
            core::mem::swap(&mut self.names, &mut held);
            held.push(name);
            proof {
                let after = held@.map_values(|s: Arc<String>| s@);
                assert(after =~= before.push(n));
                assert(!before.to_set().contains(n));
                assert forall|a: int, b: int|
                    0 <= a < after.len() && 0 <= b < after.len() && a != b implies after[a]
                    != after[b] by {
                    if a < before.len() && b < before.len() {
                        assert(before[a] != before[b]);
                    } else if a < before.len() {
                        assert(before.to_set().contains(before[a]));
                    } else {
                        assert(before.to_set().contains(before[b]));
                    }
                }
            }
            self.names = held;
            proof {
                assert(self.items() =~= before.push(n));
                assert(self@ =~= before.to_set().insert(n)) by {
                    assert forall|x: Seq<char>|
                        self.items().to_set().contains(x) <==> before.to_set().insert(n).contains(
                            x,
                        ) by {
                        if before.to_set().insert(n).contains(x) {
                            if x == n {
                                assert(self.items()[before.len() as int] == x);
                            } else {
                                let k = choose|k: int| 0 <= k < before.len() && before[k] == x;
                                assert(self.items()[k] == x);
                            }
                        }
                    }
                }
            }
            true
        }
    }

    /// Adds every name of `other`.
    pub fn absorb(&mut self, other: &NameSet)
        ensures
            final(self)@ == old(self)@.union(other@),
    {
        let mut i: usize = 0;
        while i < other.names.len()
            invariant
                i <= other.names.len(),
                self@ == old(self)@.union(other.items().take(i as int).to_set()),
            decreases other.names.len() - i,
        {
            let ghost before = self@;
            self.insert_shared(other.names[i].clone());
            proof {
                let t0 = other.items().take(i as int);
                let t1 = other.items().take(i as int + 1);
                assert(t1 =~= t0.push(other.items()[i as int]));
                assert(t1.to_set() =~= t0.to_set().insert(other.items()[i as int])) by {
                    assert forall|x: Seq<char>|
                        t1.to_set().contains(x) <==> t0.to_set().insert(
                            other.items()[i as int],
                        ).contains(x) by {
                        if t1.to_set().contains(x) {
                            let k = choose|k: int| 0 <= k < t1.len() && t1[k] == x;
                            if k < i {
                                assert(t0[k] == x);
                            }
                        }
                        if t0.to_set().contains(x) {
                            let k = choose|k: int| 0 <= k < t0.len() && t0[k] == x;
                            assert(t1[k] == x);
                        }
                        if x == other.items()[i as int] {
                            assert(t1[i as int] == x);
                        }
                    }
                }
                assert(self@ =~= old(self)@.union(t1.to_set()));
            }
            i += 1;
        }
        proof {
            assert(other.items().take(other.names.len() as int) =~= other.items());
        }
    }

    /// The names held, in arrival order.
    pub fn to_vec(&self) -> (v: Vec<String>)
        ensures
            v@.map_values(|s: String| s@) == self.items(),
    {
        let mut v: Vec<String> = Vec::new();
        let mut i: usize = 0;
        while i < self.names.len()
            invariant
                i <= self.names.len(),
                v@.len() == i,
                self.items().len() == self.names@.len(),
                v@.map_values(|s: String| s@) == self.items().take(i as int),
            decreases self.names.len() - i,
        {
            let ghost before = v@.map_values(|s: String| s@);
            v.push(self.names[i].as_str().to_owned());
            proof {
                let now = v@.map_values(|s: String| s@);
                let want = self.items().take(i as int + 1);
                assert(now.len() == want.len());
                assert forall|j: int| 0 <= j < now.len() implies now[j] == want[j] by {
                    if j < i {
                        assert(now[j] == before[j]);
                    }
                }
                assert(now =~= want);
            }
            i += 1;
        }
        assert(self.items().take(self.names.len() as int) =~= self.items());
        v
    }
}

impl Clone for NameSet {
    fn clone(&self) -> (r: Self)
        ensures
            r@ == self@,
            r.items() == self.items(),
    {
        proof {
            use_type_invariant(self);
        }
        let mut names: Vec<Arc<String>> = Vec::new();
        let mut i: usize = 0;
        while i < self.names.len()
            invariant
                i <= self.names.len(),
                names@.len() == i,
                forall|j: int| 0 <= j < i ==> (#[trigger] names@[j])@ == self.names@[j]@,
            decreases self.names.len() - i,
        {
            names.push(self.names[i].clone());
            i += 1;
        }
        assert(names@.map_values(|s: Arc<String>| s@) =~= self.items());
        NameSet { names }
    }
}

} // verus!

verus! {

/// A finite map from names to values, kept in the order in which the names
/// first arrived.
#[derive(Debug)]
pub struct NameMap<V> {
    entries: Vec<(String, V)>,
}

impl<V> View for NameMap<V> {
    type V = Map<Seq<char>, V>;

    open spec fn view(&self) -> Map<Seq<char>, V> {
        Map::new(
            |k: Seq<char>| self.key_seq().contains(k),
            |k: Seq<char>| self.value_seq()[self.key_seq().index_of(k)],
        )
    }
}

impl<V> NameMap<V> {
    /// The names held, in arrival order.
    pub closed spec fn key_seq(&self) -> Seq<Seq<char>> {
        self.entries@.map_values(|e: (String, V)| e.0@)
    }

    /// The values held, each at the place of its name.
    pub closed spec fn value_seq(&self) -> Seq<V> {
        self.entries@.map_values(|e: (String, V)| e.1)
    }

    #[verifier::type_invariant]
    spec fn distinct(&self) -> bool {
        self.key_seq().no_duplicates()
    }

    /// Whether each name occurs once and stands beside its value in the map.
    pub open spec fn shaped(&self) -> bool {
        &&& self.key_seq().no_duplicates()
        &&& self.key_seq().len() == self.value_seq().len()
        &&& self@.dom().finite()
        &&& self@.dom() == self.key_seq().to_set()
        &&& self@.len() == self.key_seq().len()
        &&& forall|i: int|
            0 <= i < self.key_seq().len() ==> self@.contains_key(#[trigger] self.key_seq()[i])
                && self@[self.key_seq()[i]] == self.value_seq()[i]
    }

    proof fn lemma_shape(&self)
        requires
            self.distinct(),
        ensures
            self.shaped(),
    {
        let ks = self.key_seq();
        assert(self@.dom() =~= ks.to_set());
        ks.unique_seq_to_set();
        assert forall|i: int| 0 <= i < ks.len() implies self@.contains_key(#[trigger] ks[i])
            && self@[ks[i]] == self.value_seq()[i] by {
            ks.index_of_first_ensures(ks[i]);
            let j = ks.index_of(ks[i]);
            assert(0 <= j < ks.len() && ks[j] == ks[i]);
        }
    }

    /// The map without any name.
    pub fn new() -> (r: Self)
        ensures
            r@ == Map::<Seq<char>, V>::empty(),
            r.key_seq() == Seq::<Seq<char>>::empty(),
    {
        let r = NameMap { entries: Vec::new() };
        assert(r.key_seq() =~= Seq::<Seq<char>>::empty());
        assert(r@ =~= Map::<Seq<char>, V>::empty());
        r
    }

    /// How many names the map holds.
    pub fn len(&self) -> (n: usize)
        ensures
            n == self@.len(),
            n == self.key_seq().len(),
            self.shaped(),
    {
        proof {
            use_type_invariant(self);
            self.lemma_shape();
        }
        self.entries.len()
    }

    /// Where `name` stands in the arrival order, if the map holds it.
    fn position(&self, name: &str) -> (r: Option<usize>)
        ensures
            self.shaped(),
            match r {
                Some(i) => i < self.key_seq().len() && self.key_seq()[i as int] == name@
                    && self@.contains_key(name@) && self@[name@] == self.value_seq()[i as int],
                None => !self@.contains_key(name@),
            },
    {
        proof {
            use_type_invariant(self);
            self.lemma_shape();
        }
        let mut i: usize = 0;
        while i < self.entries.len()
            invariant
                i <= self.entries.len(),
                self.shaped(),
                self.key_seq().len() == self.entries@.len(),
                forall|j: int| 0 <= j < i ==> self.key_seq()[j] != name@,
            decreases self.entries.len() - i,
        {
            assert(self.key_seq()[i as int] == self.entries@[i as int].0@);
            if str_eq(self.entries[i].0.as_str(), name) {
                assert(self@.contains_key(self.key_seq()[i as int]));
                return Some(i);
            }
            i += 1;
        }
        None
    }

    /// Whether the map holds `name`.
    pub fn contains_key(&self, name: &str) -> (b: bool)
        ensures
            b == self@.contains_key(name@),
    {
        self.position(name).is_some()
    }

    /// The value under `name`, if the map holds it.
    pub fn get(&self, name: &str) -> (r: Option<&V>)
        ensures
            match r {
                Some(v) => self@.contains_key(name@) && *v == self@[name@],
                None => !self@.contains_key(name@),
            },
    {
        match self.position(name) {
            Some(i) => Some(&self.entries[i].1),
            None => None,
        }
    }

    /// The name at place `i` of the arrival order.
    pub fn key_at(&self, i: usize) -> (k: &String)
        requires
            i < self.key_seq().len(),
        ensures
            k@ == self.key_seq()[i as int],
    {
        &self.entries[i].0
    }

    /// The value at place `i` of the arrival order.
    pub fn value_at(&self, i: usize) -> (v: &V)
        requires
            i < self.key_seq().len(),
        ensures
            *v == self.value_seq()[i as int],
    {
        &self.entries[i].1
    }

    /// Puts `value` under `name`, in place of any value held there before.
    pub fn insert(&mut self, name: String, value: V)
        ensures
            final(self)@ == old(self)@.insert(name@, value),
            final(self).key_seq() == if old(self)@.contains_key(name@) {
                old(self).key_seq()
            } else {
                old(self).key_seq().push(name@)
            },
    {
        let ghost ks = self.key_seq();
        let ghost vs = self.value_seq();
        let ghost before = self@;
        let ghost n = name@;
        let found = self.position(name.as_str());
        let mut entries: Vec<(String, V)> = Vec::new();
        core::mem::swap(&mut self.entries, &mut entries);
        match found {
            Some(i) => {
                entries.set(i, (name, value));
                proof {
                    let after = entries@.map_values(|e: (String, V)| e.0@);
                    assert(after =~= ks);
                }
                self.entries = entries;
                proof {
                    assert(self.key_seq() == ks);
                    assert(self.value_seq() =~= vs.update(i as int, value));
                    assert forall|k: Seq<char>| before.insert(n, value).contains_key(k) implies
                        self@.contains_key(k) && self@[k] == before.insert(n, value)[k] by {
                        ks.index_of_first_ensures(k);
                        ks.index_of_first_ensures(n);
                    }
                    assert(self@ =~= before.insert(n, value));
                }
            },
            None => {
                entries.push((name, value));
                proof {
                    let after = entries@.map_values(|e: (String, V)| e.0@);
                    assert(after =~= ks.push(n));
                    assert(!ks.contains(n));
                    assert forall|a: int, b: int|
                        0 <= a < after.len() && 0 <= b < after.len() && a != b implies after[a]
                        != after[b] by {
                        if a < ks.len() && b < ks.len() {
                            assert(ks[a] != ks[b]);
                        } else if a < ks.len() {
                            assert(ks.contains(ks[a]));
                        } else {
                            assert(ks.contains(ks[b]));
                        }
                    }
                }
                self.entries = entries;
                proof {
                    let ks2 = self.key_seq();
                    let vs2 = self.value_seq();
                    assert(ks2 =~= ks.push(n));
                    assert(vs2 =~= vs.push(value));
                    assert(ks2.no_duplicates());
                    assert forall|k: Seq<char>| before.insert(n, value).contains_key(k) implies
                        self@.contains_key(k) && self@[k] == before.insert(n, value)[k] by {
                        if k == n {
                            assert(ks2[ks.len() as int] == n);
                            ks2.index_of_first_ensures(k);
                            let j2 = ks2.index_of(k);
                            assert(ks2[j2] == k);
                            assert(j2 == ks.len());
                        } else {
                            ks.index_of_first_ensures(k);
                            let j = ks.index_of(k);
                            assert(ks[j] == k);
                            assert(ks2[j] == k);
                            ks2.index_of_first_ensures(k);
                            let j2 = ks2.index_of(k);
                            assert(ks2[j2] == k);
                            assert(j2 == j);
                            assert(vs2[j] == vs[j]);
                        }
                    }
                    assert forall|k: Seq<char>|
                        self@.dom().contains(k) <==> before.insert(n, value).dom().contains(
                            k,
                        ) by {
                        if ks2.contains(k) {
                            let j = choose|j: int| 0 <= j < ks2.len() && ks2[j] == k;
                            if j < ks.len() {
                                assert(ks[j] == k);
                                assert(ks.contains(k));
                            }
                        }
                        if ks.contains(k) {
                            let j = choose|j: int| 0 <= j < ks.len() && ks[j] == k;
                            assert(ks2[j] == k);
                            assert(ks2.contains(k));
                        }
                        if k == n {
                            assert(ks2[ks.len() as int] == n);
                            assert(ks2.contains(k));
                        }
                    }
                    assert(self@.dom() =~= before.insert(n, value).dom());
                    assert(self@ =~= before.insert(n, value));
                }
            },
        }
    }
}

} // verus!
