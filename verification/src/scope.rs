use crate::names::{NameMap, NameSet};
use crate::php_namespace::PhpNamespace;
use crate::text::str_eq;
use vstd::prelude::*;
use vstd::string::StringExecFns;

verus! {

/// The names that are bound everywhere and cannot be shadowed.
pub open spec fn superglobals() -> Set<Seq<char>> {
    Set::<Seq<char>>::empty().insert("$GLOBALS"@).insert("$_SERVER"@).insert("$_GET"@).insert(
        "$_POST"@,
    ).insert("$_FILES"@).insert("$_COOKIE"@).insert("$_SESSION"@).insert("$_REQUEST"@).insert(
        "$_ENV"@,
    )
}

/// Whether `name` is one of the superglobal names.
pub fn is_superglobal(name: &str) -> (b: bool)
    ensures
        b == superglobals().contains(name@),
{
    str_eq(name, "$GLOBALS") || str_eq(name, "$_SERVER") || str_eq(name, "$_GET") || str_eq(
        name,
        "$_POST",
    ) || str_eq(name, "$_FILES") || str_eq(name, "$_COOKIE") || str_eq(name, "$_SESSION")
        || str_eq(name, "$_REQUEST") || str_eq(name, "$_ENV")
}

/// The symbols bound after `other` has been merged into `base`.
pub open spec fn absorbed(base: Set<Seq<char>>, other: Set<Seq<char>>) -> Set<Seq<char>> {
    base.union(other)
}

/// The symbols bound after each of `branches` has been merged into `base`,
/// one after the other.
pub open spec fn absorbed_all(base: Set<Seq<char>>, branches: Seq<Set<Seq<char>>>) -> Set<
    Seq<char>,
>
    decreases branches.len(),
{
    if branches.len() == 0 {
        base
    } else {
        absorbed(absorbed_all(base, branches.drop_last()), branches.last())
    }
}

/// The aliases of a scope, each with the segments of its namespace.
pub open spec fn alias_views(m: Map<Seq<char>, PhpNamespace>) -> Map<Seq<char>, Seq<Seq<char>>> {
    m.map_values(|ns: PhpNamespace| ns@)
}

/// What is visible at one point of a source file: the namespace the code
/// stands in, the aliases that `use` declarations gave, and the bound names.
#[derive(Debug)]
pub struct Scope {
    /// The namespace we are currently occupying.
    pub ns: Option<PhpNamespace>,
    pub ns_aliases: NameMap<PhpNamespace>,
    pub symbols: NameSet,
}

impl Scope {
    /// The segments of the current namespace, if one was declared.
    pub open spec fn namespace(&self) -> Option<Seq<Seq<char>>> {
        match self.ns {
            Some(ns) => Some(ns@),
            None => None,
        }
    }

    /// The aliases, each with the segments of its namespace.
    pub open spec fn aliases(&self) -> Map<Seq<char>, Seq<Seq<char>>> {
        alias_views(self.ns_aliases@)
    }

    /// The scope at the start of a file: no namespace, no alias, and the
    /// superglobals bound.
    pub fn empty() -> (r: Self)
        ensures
            r.namespace() is None,
            r.aliases() == Map::<Seq<char>, Seq<Seq<char>>>::empty(),
            r.symbols@ == superglobals(),
    {
        let mut symbols = NameSet::new();
        symbols.insert(String::from_str("$GLOBALS"));
        symbols.insert(String::from_str("$_SERVER"));
        symbols.insert(String::from_str("$_GET"));
        symbols.insert(String::from_str("$_POST"));
        symbols.insert(String::from_str("$_FILES"));
        symbols.insert(String::from_str("$_COOKIE"));
        symbols.insert(String::from_str("$_SESSION"));
        symbols.insert(String::from_str("$_REQUEST"));
        symbols.insert(String::from_str("$_ENV"));
        let r = Scope { ns: None, ns_aliases: NameMap::new(), symbols };
        assert(r.aliases() =~= Map::<Seq<char>, Seq<Seq<char>>>::empty());
        r
    }

    /// Merges `other` into this scope: every name bound in either is bound
    /// afterwards, and every alias of either is known, with that of `other`
    /// where both have one.
    pub fn absorb(&mut self, other: Self)
        ensures
            final(self).namespace() == old(self).namespace(),
            final(self).symbols@ == absorbed(old(self).symbols@, other.symbols@),
            final(self).aliases() == old(self).aliases().union_prefer_right(other.aliases()),
    {
        self.symbols.absorb(&other.symbols);
        let n = other.ns_aliases.len();
        let ghost keys = other.ns_aliases.key_seq();
        let ghost vals = other.ns_aliases.value_seq();
        let mut i: usize = 0;
        while i < n
            invariant
                i <= n,
                n == keys.len(),
                keys == other.ns_aliases.key_seq(),
                vals == other.ns_aliases.value_seq(),
                other.ns_aliases.shaped(),
                self.namespace() == old(self).namespace(),
                self.symbols@ == absorbed(old(self).symbols@, other.symbols@),
                forall|k: Seq<char>| #[trigger]
                    self.aliases().contains_key(k) <==> old(self).aliases().contains_key(k) || (
                    exists|j: int| 0 <= j < i && keys[j] == k),
                forall|j: int| 0 <= j < i ==> #[trigger] self.aliases()[keys[j]] == vals[j]@,
                forall|k: Seq<char>|
                    old(self).aliases().contains_key(k) && !(exists|j: int|
                        0 <= j < i && keys[j] == k) ==> #[trigger] self.aliases()[k] == old(
                        self,
                    ).aliases()[k],
            decreases n - i,
        {
            let ghost before = self.aliases();
            let alias = other.ns_aliases.key_at(i).clone();
            let ns = other.ns_aliases.value_at(i).clone();
            let ghost inserted = ns;
            self.ns_aliases.insert(alias, ns);
            proof {
                let k_i = keys[i as int];
                assert(self.aliases() =~= before.insert(k_i, inserted@));
                assert forall|k: Seq<char>| #[trigger]
                    self.aliases().contains_key(k) <==> old(self).aliases().contains_key(k) || (
                    exists|j: int| 0 <= j < i + 1 && keys[j] == k) by {
                    if k == k_i {
                        assert(keys[i as int] == k);
                    }
                    if before.contains_key(k) && !old(self).aliases().contains_key(k) {
                        let j = choose|j: int| 0 <= j < i && keys[j] == k;
                        assert(0 <= j < i + 1 && keys[j] == k);
                    }
                }
                assert forall|j: int| 0 <= j < i + 1 implies #[trigger] self.aliases()[keys[j]]
                    == vals[j]@ by {
                    if j < i {
                        assert(keys[j] != k_i);
                        assert(before[keys[j]] == vals[j]@);
                    }
                }
                assert forall|k: Seq<char>|
                    old(self).aliases().contains_key(k) && !(exists|j: int|
                        0 <= j < i + 1 && keys[j] == k) implies #[trigger] self.aliases()[k]
                    == old(self).aliases()[k] by {
                    assert(k != k_i);
                    assert(!(exists|j: int| 0 <= j < i && keys[j] == k)) by {
                        if exists|j: int| 0 <= j < i && keys[j] == k {
                            let j = choose|j: int| 0 <= j < i && keys[j] == k;
                            assert(0 <= j < i + 1 && keys[j] == k);
                        }
                    }
                }
            }
            i += 1;
        }
        proof {
            let want = old(self).aliases().union_prefer_right(other.aliases());
            assert forall|k: Seq<char>| other.aliases().contains_key(k) <==> (exists|j: int|
                0 <= j < n && keys[j] == k) by {
                if other.aliases().contains_key(k) {
                    assert(keys.to_set().contains(k));
                }
                if exists|j: int| 0 <= j < n && keys[j] == k {
                    let j = choose|j: int| 0 <= j < n && keys[j] == k;
                    assert(other.ns_aliases@.contains_key(keys[j]));
                }
            }
            assert forall|k: Seq<char>| want.contains_key(k) implies self.aliases().contains_key(k)
                && self.aliases()[k] == want[k] by {
                if other.aliases().contains_key(k) {
                    let j = choose|j: int| 0 <= j < n && keys[j] == k;
                    assert(self.aliases()[keys[j]] == vals[j]@);
                    assert(other.ns_aliases@[keys[j]] == vals[j]);
                }
            }
            assert(self.aliases() =~= want);
        }
    }
}

impl Clone for Scope {
    fn clone(&self) -> (r: Self)
        ensures
            r.namespace() == self.namespace(),
            r.aliases() == self.aliases(),
            r.symbols@ == self.symbols@,
    {
        let ns = match &self.ns {
            Some(ns) => Some(ns.clone()),
            None => None,
        };
        let mut r = Scope { ns, ns_aliases: NameMap::new(), symbols: self.symbols.clone() };
        assert(r.aliases() =~= Map::<Seq<char>, Seq<Seq<char>>>::empty());
        let n = self.ns_aliases.len();
        let ghost keys = self.ns_aliases.key_seq();
        let ghost vals = self.ns_aliases.value_seq();
        let mut i: usize = 0;
        while i < n
            invariant
                i <= n,
                n == keys.len(),
                keys == self.ns_aliases.key_seq(),
                vals == self.ns_aliases.value_seq(),
                self.ns_aliases.shaped(),
                r.namespace() == self.namespace(),
                r.symbols@ == self.symbols@,
                forall|k: Seq<char>| #[trigger]
                    r.aliases().contains_key(k) <==> (exists|j: int| 0 <= j < i && keys[j] == k),
                forall|j: int| 0 <= j < i ==> #[trigger] r.aliases()[keys[j]] == vals[j]@,
            decreases n - i,
        {
            let ghost before = r.aliases();
            let alias = self.ns_aliases.key_at(i).clone();
            let ns = self.ns_aliases.value_at(i).clone();
            let ghost inserted = ns;
            r.ns_aliases.insert(alias, ns);
            proof {
                let k_i = keys[i as int];
                assert(r.aliases() =~= before.insert(k_i, inserted@));
                assert forall|k: Seq<char>| #[trigger]
                    r.aliases().contains_key(k) <==> (exists|j: int|
                        0 <= j < i + 1 && keys[j] == k) by {
                    if k == k_i {
                        assert(keys[i as int] == k);
                    }
                    if before.contains_key(k) {
                        let j = choose|j: int| 0 <= j < i && keys[j] == k;
                        assert(0 <= j < i + 1 && keys[j] == k);
                    }
                }
                assert forall|j: int| 0 <= j < i + 1 implies #[trigger] r.aliases()[keys[j]]
                    == vals[j]@ by {
                    if j < i {
                        assert(keys[j] != k_i);
                        assert(before[keys[j]] == vals[j]@);
                    }
                }
            }
            i += 1;
        }
        proof {
            let want = self.aliases();
            assert forall|k: Seq<char>| want.contains_key(k) <==> (exists|j: int|
                0 <= j < n && keys[j] == k) by {
                if want.contains_key(k) {
                    assert(keys.to_set().contains(k));
                }
                if exists|j: int| 0 <= j < n && keys[j] == k {
                    let j = choose|j: int| 0 <= j < n && keys[j] == k;
                    assert(self.ns_aliases@.contains_key(keys[j]));
                }
            }
            assert forall|k: Seq<char>| want.contains_key(k) implies r.aliases().contains_key(k)
                && r.aliases()[k] == want[k] by {
                let j = choose|j: int| 0 <= j < n && keys[j] == k;
                assert(r.aliases()[keys[j]] == vals[j]@);
                assert(self.ns_aliases@[keys[j]] == vals[j]);
            }
            assert(r.aliases() =~= want);
        }
        r
    }
}

/// Merging two scopes into a third binds the same names whichever of the two
/// is merged first.
pub proof fn lemma_absorb_commutes(
    base: Set<Seq<char>>,
    first: Set<Seq<char>>,
    second: Set<Seq<char>>,
)
    ensures
        absorbed(absorbed(base, first), second) == absorbed(absorbed(base, second), first),
        absorbed(first, second) == absorbed(second, first),
{
    assert(absorbed(absorbed(base, first), second) =~= absorbed(absorbed(base, second), first));
    assert(absorbed(first, second) =~= absorbed(second, first));
}

/// Merging is associative: merging two scopes one after the other binds the
/// same names as merging their merge.
pub proof fn lemma_absorb_associates(
    base: Set<Seq<char>>,
    first: Set<Seq<char>>,
    second: Set<Seq<char>>,
)
    ensures
        absorbed(absorbed(base, first), second) == absorbed(base, absorbed(first, second)),
{
    assert(absorbed(absorbed(base, first), second) =~= absorbed(base, absorbed(first, second)));
}

/// A name is bound after a run of merges exactly when the base or one of the
/// merged scopes binds it.
pub proof fn lemma_absorbed_all_contains(
    base: Set<Seq<char>>,
    branches: Seq<Set<Seq<char>>>,
    name: Seq<char>,
)
    ensures
        absorbed_all(base, branches).contains(name) <==> base.contains(name) || exists|i: int|
            0 <= i < branches.len() && #[trigger] branches[i].contains(name),
    decreases branches.len(),
{
    if branches.len() > 0 {
        let front = branches.drop_last();
        lemma_absorbed_all_contains(base, front, name);
        if exists|i: int| 0 <= i < front.len() && #[trigger] front[i].contains(name) {
            let i = choose|i: int| 0 <= i < front.len() && #[trigger] front[i].contains(name);
            assert(branches[i].contains(name));
        }
        if exists|i: int| 0 <= i < branches.len() && #[trigger] branches[i].contains(name) {
            let i = choose|i: int| 0 <= i < branches.len() && #[trigger] branches[i].contains(name);
            if i < front.len() {
                assert(front[i].contains(name));
            }
        }
    }
}

/// Merging the same branch scopes in any order, and any number of times
/// each, binds the same names.
pub proof fn lemma_absorb_order_irrelevant(
    base: Set<Seq<char>>,
    one: Seq<Set<Seq<char>>>,
    other: Seq<Set<Seq<char>>>,
)
    requires
        one.to_set() == other.to_set(),
    ensures
        absorbed_all(base, one) == absorbed_all(base, other),
{
    assert forall|name: Seq<char>|
        absorbed_all(base, one).contains(name) <==> absorbed_all(base, other).contains(name) by {
        lemma_absorbed_all_contains(base, one, name);
        lemma_absorbed_all_contains(base, other, name);
        if exists|i: int| 0 <= i < one.len() && #[trigger] one[i].contains(name) {
            let i = choose|i: int| 0 <= i < one.len() && #[trigger] one[i].contains(name);
            assert(one.to_set().contains(one[i]));
            assert(other.to_set().contains(one[i]));
            let j = choose|j: int| 0 <= j < other.len() && other[j] == one[i];
            assert(other[j].contains(name));
        }
        if exists|i: int| 0 <= i < other.len() && #[trigger] other[i].contains(name) {
            let i = choose|i: int| 0 <= i < other.len() && #[trigger] other[i].contains(name);
            assert(other.to_set().contains(other[i]));
            assert(one.to_set().contains(other[i]));
            let j = choose|j: int| 0 <= j < one.len() && one[j] == other[i];
            assert(one[j].contains(name));
        }
    }
    assert(absorbed_all(base, one) =~= absorbed_all(base, other));
}

} // verus!
