use crate::php_namespace::{views, DirPath, PhpNamespace, SegmentPool};
use crate::types::{namespace_views, NamespaceMap};
use vstd::prelude::*;
use vstd::string::StringExecFns;

verus! {

/// Why a package description gives no autoload table.
#[derive(Clone, Copy, Debug, PartialEq, Eq, Structural)]
pub enum AutoloadError {
    /// The description has no autoload section.
    NoAutoload,
    /// The autoload section has no table for namespaces.
    NoPSR4,
}

impl AutoloadError {
    /// The error in words.
    pub open spec fn message(self) -> Seq<char> {
        match self {
            AutoloadError::NoAutoload => "no autoload given"@,
            AutoloadError::NoPSR4 => "no psr-4 in autoload"@,
        }
    }

    /// The error in words.
    pub fn to_string(&self) -> (r: String)
        ensures
            r@ == self.message(),
    {
        match self {
            AutoloadError::NoAutoload => String::from_str("no autoload given"),
            AutoloadError::NoPSR4 => String::from_str("no psr-4 in autoload"),
        }
    }
}

/// Why a namespace could not be resolved to a file.
#[derive(Debug)]
pub enum ResolutionError {
    /// No root of the autoload table holds the namespace.
    NamespaceNotFound(PhpNamespace),
    /// The namespace has no segment that could name a file.
    NamespaceTooShort(PhpNamespace),
    FileNotFound(String),
}

/// An error of resolution with its texts as sequences of characters.
pub enum ResolutionErrorView {
    NamespaceNotFound(Seq<Seq<char>>),
    NamespaceTooShort(Seq<Seq<char>>),
    FileNotFound(Seq<char>),
}

impl View for ResolutionError {
    type V = ResolutionErrorView;

    open spec fn view(&self) -> ResolutionErrorView {
        match self {
            ResolutionError::NamespaceNotFound(ns) => ResolutionErrorView::NamespaceNotFound(ns@),
            ResolutionError::NamespaceTooShort(ns) => ResolutionErrorView::NamespaceTooShort(ns@),
            ResolutionError::FileNotFound(f) => ResolutionErrorView::FileNotFound(f@),
        }
    }
}

/// An error of resolution in words.
pub open spec fn resolution_message(e: ResolutionErrorView) -> Seq<char> {
    match e {
        ResolutionErrorView::FileNotFound(f) => "file `"@ + f + "` not found"@,
        ResolutionErrorView::NamespaceNotFound(ns) => "namespace `"@ + crate::php_namespace::joined(
            ns,
        ) + "` not found"@,
        ResolutionErrorView::NamespaceTooShort(ns) => "namespace `"@ + crate::php_namespace::joined(
            ns,
        ) + "` is too short"@,
    }
}

impl ResolutionError {
    /// The error in words.
    pub fn to_string(&self) -> (r: String)
        ensures
            r@ == resolution_message(self@),
    {
        match self {
            ResolutionError::FileNotFound(f) => {
                let mut out = String::from_str("file `");
                out.append(f.as_str());
                out.append("` not found");
                out
            },
            ResolutionError::NamespaceNotFound(ns) => {
                let mut out = String::from_str("namespace `");
                out.append(ns.to_string().as_str());
                out.append("` not found");
                out
            },
            ResolutionError::NamespaceTooShort(ns) => {
                let mut out = String::from_str("namespace `");
                out.append(ns.to_string().as_str());
                out.append("` is too short");
                out
            },
        }
    }
}

/// The table that says under which directories the files of a namespace
/// lie: for a namespace, the directories that stand for it.
#[derive(Debug)]
pub struct Autoload {
    pub psr4: NamespaceMap<Vec<String>>,
}

/// The table with each list of directories as a sequence of texts.
pub open spec fn table_of(m: Map<Seq<Seq<char>>, Vec<String>>) -> Map<
    Seq<Seq<char>>,
    Seq<Seq<char>>,
> {
    m.map_values(|dirs: Vec<String>| views(dirs@))
}

/// The directories that the table has for `key`; none where it has no such
/// root.
pub open spec fn known_dirs(table: Map<Seq<Seq<char>>, Seq<Seq<char>>>, key: Seq<Seq<char>>) -> Seq<
    Seq<char>,
> {
    if table.contains_key(key) {
        table[key]
    } else {
        Seq::empty()
    }
}

/// The table that the first `n` of `entries` make.
pub open spec fn rooted(entries: Seq<(String, Vec<String>)>, n: nat) -> Map<
    Seq<Seq<char>>,
    Seq<Seq<char>>,
>
    decreases n,
{
    if n == 0 || n > entries.len() {
        Map::empty()
    } else {
        rooted(entries, (n - 1) as nat).insert(
            crate::php_namespace::segments_of(entries[n - 1].0@),
            views(entries[n - 1].1@),
        )
    }
}

/// The segments that the namespaces of the first `n` of `entries` hold.
pub open spec fn interned(entries: Seq<(String, Vec<String>)>, n: nat) -> Set<Seq<char>>
    decreases n,
{
    if n == 0 || n > entries.len() {
        Set::empty()
    } else {
        interned(entries, (n - 1) as nat).union(
            crate::php_namespace::segments_of(entries[n - 1].0@).to_set(),
        )
    }
}

/// A path with its texts as sequences of characters: the directory it is
/// counted from, and the components below it.
pub struct PathView {
    pub root: Seq<char>,
    pub parts: Seq<Seq<char>>,
}

impl View for DirPath {
    type V = PathView;

    open spec fn view(&self) -> PathView {
        PathView { root: self.root@, parts: views(self.parts@) }
    }
}

/// The views of a list of paths.
pub open spec fn path_views(v: Seq<DirPath>) -> Seq<PathView> {
    v.map_values(|p: DirPath| p@)
}

/// Those of the first `n` of `keys` that `other` begins with, in order.
pub open spec fn matching(keys: Seq<Seq<Seq<char>>>, other: Seq<Seq<char>>, n: nat) -> Seq<
    Seq<Seq<char>>,
>
    decreases n,
{
    if n == 0 || n > keys.len() {
        Seq::empty()
    } else if keys[n - 1].is_prefix_of(other) {
        matching(keys, other, (n - 1) as nat).push(keys[n - 1])
    } else {
        matching(keys, other, (n - 1) as nat)
    }
}

/// The name of the file that declares the type `name`.
pub open spec fn file_name(name: Seq<char>) -> Seq<char> {
    name + ".php"@
}

/// Where the file of the type `full` may lie below the first `n`
/// directories of the root `key`: in each, below the segments that the
/// namespace of the type has beyond the root.
pub open spec fn places_under(
    dirs: Seq<Seq<char>>,
    key: Seq<Seq<char>>,
    full: Seq<Seq<char>>,
    n: nat,
) -> Seq<PathView>
    decreases n,
{
    if n == 0 || n > dirs.len() || full.len() == 0 {
        Seq::empty()
    } else {
        let below = if key.len() < full.len() {
            full.drop_last().skip(key.len() as int)
        } else {
            Seq::empty()
        };
        places_under(dirs, key, full, (n - 1) as nat).push(
            PathView { root: dirs[n - 1], parts: below.push(file_name(full.last())) },
        )
    }
}

/// Where the file of the type `full` may lie, going by the roots that are
/// made of at least `from` of its segments: under the longest root first.
pub open spec fn places(
    table: Map<Seq<Seq<char>>, Seq<Seq<char>>>,
    full: Seq<Seq<char>>,
    from: nat,
) -> Seq<PathView>
    decreases full.len() + 1 - from,
{
    if from > full.len() {
        Seq::empty()
    } else {
        let key = full.take(from as int);
        places(table, full, from + 1) + if table.contains_key(key) {
            places_under(table[key], key, full, table[key].len())
        } else {
            Seq::empty()
        }
    }
}

impl Autoload {
    /// The table as a map from namespaces to their directories.
    pub open spec fn table(&self) -> Map<Seq<Seq<char>>, Seq<Seq<char>>> {
        table_of(self.psr4@)
    }

    /// The table without any root.
    pub fn new() -> (r: Self)
        ensures
            r.table() == Map::<Seq<Seq<char>>, Seq<Seq<char>>>::empty(),
    {
        let r = Autoload { psr4: NamespaceMap::new() };
        assert(r.table() =~= Map::<Seq<Seq<char>>, Seq<Seq<char>>>::empty());
        r
    }

    /// Makes `dirs` the directories of the namespace that `ns` spells, in
    /// place of any it had.
    pub fn insert(&mut self, pool: &mut SegmentPool, ns: &str, dirs: Vec<String>)
        ensures
            final(self).table() == old(self).table().insert(
                crate::php_namespace::segments_of(ns@),
                views(dirs@),
            ),
            final(pool)@ == old(pool)@.union(crate::php_namespace::segments_of(ns@).to_set()),
    {
        let key = pool.intern_str(ns);
        let ghost k = key@;
        let ghost before = self.table();
        let ghost d = views(dirs@);
        self.psr4.insert(key, dirs);
        assert(self.table() =~= before.insert(k, d));
    }

    /// Adds `dirs` to the directories of the namespace that `ns` spells,
    /// behind those it has.
    pub fn extend(&mut self, pool: &mut SegmentPool, ns: &str, dirs: Vec<String>)
        ensures
            final(self).table() == old(self).table().insert(
                crate::php_namespace::segments_of(ns@),
                known_dirs(old(self).table(), crate::php_namespace::segments_of(ns@)) + views(
                    dirs@,
                ),
            ),
            final(pool)@ == old(pool)@.union(crate::php_namespace::segments_of(ns@).to_set()),
    {
        let key = pool.intern_str(ns);
        let ghost k = key@;
        let ghost before = self.table();
        let mut all: Vec<String> = Vec::new();
        assert(views(all@) =~= Seq::<Seq<char>>::empty());
        if let Some(known) = self.psr4.get(&key) {
            let mut i: usize = 0;
            assert(views(all@) =~= views(known@).take(0));
            while i < known.len()
                invariant
                    i <= known.len(),
                    views(all@) == views(known@).take(i as int),
                decreases known.len() - i,
            {
                let ghost sofar = views(all@);
                all.push(known[i].clone());
                assert(views(all@) =~= sofar.push(known@[i as int]@));
                assert(views(all@) =~= views(known@).take(i as int + 1));
                i += 1;
            }
            assert(views(known@).take(known.len() as int) =~= views(known@));
        }
        assert(views(all@) == known_dirs(before, k));
        let mut dirs = dirs;
        let ghost d = views(dirs@);
        let ghost head = views(all@);
        all.append(&mut dirs);
        assert(views(all@) =~= head + d);
        let ghost total = views(all@);
        self.psr4.insert(key, all);
        assert(self.table() =~= before.insert(k, total));
    }

    /// The table that the roots `entries` make, each a namespace as it is
    /// spelt with its directories; a later entry for a namespace takes the
    /// place of an earlier one. `autoload` is the autoload section of a
    /// package description, where it has one, and in it the table for
    /// namespaces, where it has one.
    pub fn from_entries(
        pool: &mut SegmentPool,
        autoload: Option<Option<Vec<(String, Vec<String>)>>>,
    ) -> (r: Result<Self, AutoloadError>)
        ensures
            match (r, autoload) {
                (Ok(a), Some(Some(entries))) => a.table() == rooted(entries@, entries@.len())
                    && final(pool)@ == old(pool)@.union(interned(entries@, entries@.len())),
                (Err(AutoloadError::NoAutoload), None) => final(pool)@ == old(pool)@,
                (Err(AutoloadError::NoPSR4), Some(None)) => final(pool)@ == old(pool)@,
                _ => false,
            },
    {
        let entries = match autoload {
            None => {
                return Err(AutoloadError::NoAutoload);
            },
            Some(None) => {
                return Err(AutoloadError::NoPSR4);
            },
            Some(Some(entries)) => entries,
        };
        let mut table = Autoload::new();
        let mut i: usize = 0;
        assert(pool@ =~= old(pool)@.union(interned(entries@, 0)));
        while i < entries.len()
            invariant
                i <= entries.len(),
                table.table() == rooted(entries@, i as nat),
                pool@ == old(pool)@.union(interned(entries@, i as nat)),
            decreases entries.len() - i,
        {
            let mut dirs: Vec<String> = Vec::new();
            let given = &entries[i].1;
            let mut j: usize = 0;
            assert(views(dirs@) =~= views(given@).take(0));
            while j < given.len()
                invariant
                    j <= given.len(),
                    views(dirs@) == views(given@).take(j as int),
                decreases given.len() - j,
            {
                let ghost sofar = views(dirs@);
                dirs.push(given[j].clone());
                assert(views(dirs@) =~= sofar.push(given@[j as int]@));
                assert(views(dirs@) =~= views(given@).take(j as int + 1));
                j += 1;
            }
            assert(views(given@).take(given.len() as int) =~= views(given@));
            table.insert(pool, entries[i].0.as_str(), dirs);
            assert(pool@ =~= old(pool)@.union(interned(entries@, (i + 1) as nat)));
            i += 1;
        }
        Ok(table)
    }

    /// The roots of the table that `other` lies in, in the order of the
    /// table.
    pub fn matching_ns(&self, other: &PhpNamespace) -> (found: Vec<PhpNamespace>)
        ensures
            namespace_views(found@) == matching(
                self.psr4.key_seq(),
                other@,
                self.psr4.key_seq().len(),
            ),
    {
        let mut found: Vec<PhpNamespace> = Vec::new();
        assert(namespace_views(found@) =~= Seq::<Seq<Seq<char>>>::empty());
        let n = self.psr4.len();
        let mut i: usize = 0;
        while i < n
            invariant
                i <= n,
                n == self.psr4.key_seq().len(),
                namespace_views(found@) == matching(self.psr4.key_seq(), other@, i as nat),
            decreases n - i,
        {
            let ns = self.psr4.key_at(i);
            if ns.is_within(other) {
                let ghost before = namespace_views(found@);
                found.push(ns.clone());
                assert(namespace_views(found@) =~= before.push(self.psr4.key_seq()[i as int]));
            }
            i += 1;
        }
        found
    }

    /// Where the file that declares the type `ns` may lie, the likeliest
    /// place first: the roots of the table that the type lies in are gone
    /// through from the longest to the shortest, and the directories of each
    /// in their order. The caller takes the first place that exists. A
    /// namespace without segments names no type; one that lies in no root
    /// has no place.
    pub fn resolve_as_file(&self, ns: PhpNamespace) -> (r: Result<Vec<DirPath>, ResolutionError>)
        ensures
            match r {
                Ok(found) => ns@.len() > 0 && path_views(found@) == places(self.table(), ns@, 0)
                    && found@.len() > 0,
                Err(ResolutionError::NamespaceTooShort(n)) => ns@.len() == 0 && n@ == ns@,
                Err(ResolutionError::NamespaceNotFound(n)) => ns@.len() > 0 && n@ == ns@.drop_last()
                    && places(self.table(), ns@, 0).len() == 0,
                Err(ResolutionError::FileNotFound(_)) => false,
            },
    {
        let mut ns = ns;
        let ghost full = ns@;
        let len = ns.len();
        let mut prefix = ns.clone();
        let name = match ns.pop() {
            Some(base) => {
                let mut name = base.as_str().to_owned();
                name.append(".php");
                name
            },
            None => {
                return Err(ResolutionError::NamespaceTooShort(ns));
            },
        };
        let mut found: Vec<DirPath> = Vec::new();
        assert(path_views(found@) =~= places(self.table(), full, (len + 1) as nat));
        let mut from: usize = len;
        loop
            invariant_except_break
                prefix@ == full.take(from as int),
                path_views(found@) == places(self.table(), full, (from + 1) as nat),
            invariant
                from <= len,
                len == full.len(),
                len > 0,
                ns@ == full.drop_last(),
                name@ == file_name(full.last()),
            ensures
                path_views(found@) == places(self.table(), full, 0),
            decreases from,
        {
            let ghost key = full.take(from as int);
            let ghost sofar = path_views(found@);
            match self.psr4.get(&prefix) {
                Some(dirs) => {
                    let ghost d = views(dirs@);
                    assert(self.table()[key] == d);
                    let mut j: usize = 0;
                    assert(path_views(found@) =~= sofar + places_under(d, key, full, 0));
                    while j < dirs.len()
                        invariant
                            j <= dirs.len(),
                            d == views(dirs@),
                            from <= len,
                            len == full.len(),
                            len > 0,
                            key == full.take(from as int),
                            prefix@ == key,
                            ns@ == full.drop_last(),
                            name@ == file_name(full.last()),
                            path_views(found@) == sofar + places_under(d, key, full, j as nat),
                        decreases dirs.len() - j,
                    {
                        let root = DirPath { root: dirs[j].clone(), parts: Vec::new() };
                        assert(views(root.parts@) =~= Seq::<Seq<char>>::empty());
                        let mut place = prefix.as_pathbuf(&root, &ns);
                        let ghost below = views(place.parts@);
                        proof {
                            if from < len {
                                assert(key.is_prefix_of(full.drop_last())) by {
                                    assert(full.drop_last().subrange(0, key.len() as int) =~= key);
                                }
                            } else {
                                assert(!key.is_prefix_of(full.drop_last()));
                            }
                        }
                        place.parts.push(name.clone());
                        let ghost before = path_views(found@);
                        let ghost pv = PathView {
                            root: d[j as int],
                            parts: below.push(file_name(full.last())),
                        };
                        assert(views(place.parts@) =~= below.push(file_name(full.last())));
                        found.push(place);
                        assert(path_views(found@) =~= before.push(pv));
                        j += 1;
                    }
                },
                None => {
                    assert(path_views(found@) =~= sofar + Seq::<PathView>::empty());
                },
            }
            if from == 0 {
                break;
            }
            prefix.pop();
            from -= 1;
            assert(full.take(from as int + 1).drop_last() =~= full.take(from as int));
        }
        if found.len() == 0 {
            Err(ResolutionError::NamespaceNotFound(ns))
        } else {
            Ok(found)
        }
    }
}

} // verus!
