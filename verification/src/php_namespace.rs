use crate::names::NameSet;
use crate::text::str_eq;
use std::sync::Arc;
use vstd::prelude::*;
use vstd::std_specs::cmp::PartialEqSpecImpl;
use vstd::string::StrSliceExecFns;
use vstd::string::StringExecFns;

verus! {

/// The views of a sequence of strings.
pub open spec fn views(v: Seq<String>) -> Seq<Seq<char>> {
    v.map_values(|s: String| s@)
}

/// The views of a sequence of shared segments.
pub open spec fn segments(v: Seq<Arc<String>>) -> Seq<Seq<char>> {
    v.map_values(|s: Arc<String>| s@)
}

/// The segment that ends at `i`, if any characters were read since `start`.
pub open spec fn pending(s: Seq<char>, start: int, i: int) -> Seq<Seq<char>> {
    if start < i {
        seq![s.subrange(start, i)]
    } else {
        Seq::empty()
    }
}

/// The segments still to come when the text has been read up to `i` and the
/// segment being read began at `start`.
pub open spec fn segments_from(s: Seq<char>, start: int, i: int) -> Seq<Seq<char>>
    decreases s.len() - i,
{
    if i >= s.len() {
        pending(s, start, s.len() as int)
    } else if s[i] == '\\' {
        pending(s, start, i) + segments_from(s, i + 1, i + 1)
    } else {
        segments_from(s, start, i + 1)
    }
}

/// The segments of a namespace written as text: the maximal runs of
/// characters other than the backslash, in order. Empty runs, such as those
/// at a leading or trailing backslash, give no segment.
pub open spec fn segments_of(s: Seq<char>) -> Seq<Seq<char>> {
    segments_from(s, 0, 0)
}

/// Whether a segment has a character and no backslash.
pub open spec fn plain(segment: Seq<char>) -> bool {
    segment.len() > 0 && forall|j: int| 0 <= j < segment.len() ==> #[trigger] segment[j] != '\\'
}

/// Every segment still to come has a character and no backslash.
pub proof fn lemma_segments_from_plain(s: Seq<char>, start: int, i: int)
    requires
        0 <= start <= i <= s.len(),
        forall|j: int| start <= j < i ==> #[trigger] s[j] != '\\',
    ensures
        forall|k: int|
            0 <= k < segments_from(s, start, i).len() ==> plain(
                #[trigger] segments_from(s, start, i)[k],
            ),
    decreases s.len() - i,
{
    let all = segments_from(s, start, i);
    if i >= s.len() {
        assert forall|k: int| 0 <= k < all.len() implies plain(#[trigger] all[k]) by {
            assert(all[k] == s.subrange(start, s.len() as int));
        }
    } else if s[i] == '\\' {
        lemma_segments_from_plain(s, i + 1, i + 1);
        let head = pending(s, start, i);
        let rest = segments_from(s, i + 1, i + 1);
        assert forall|k: int| 0 <= k < all.len() implies plain(#[trigger] all[k]) by {
            if k < head.len() {
                assert(all[k] == s.subrange(start, i));
            } else {
                assert(all[k] == rest[k - head.len()]);
            }
        }
    } else {
        lemma_segments_from_plain(s, start, i + 1);
        let next = segments_from(s, start, i + 1);
        assert(all == next);
        assert forall|k: int| 0 <= k < all.len() implies plain(#[trigger] all[k]) by {
            assert(plain(next[k]));
        }
    }
}

/// Every segment of a namespace written as text has a character and no
/// backslash.
pub proof fn lemma_segments_plain(s: Seq<char>)
    ensures
        forall|k: int| 0 <= k < segments_of(s).len() ==> plain(#[trigger] segments_of(s)[k]),
{
    lemma_segments_from_plain(s, 0, 0);
}

/// Text before the place where a segment begins does not count.
pub proof fn lemma_segments_shift(head: Seq<char>, s: Seq<char>, start: int, i: int)
    requires
        0 <= start <= i <= s.len(),
    ensures
        segments_from(head + s, head.len() + start, head.len() + i) == segments_from(s, start, i),
    decreases s.len() - i,
{
    let t = head + s;
    let k = head.len() as int;
    assert(forall|a: int, b: int|
        0 <= a <= b <= s.len() ==> #[trigger] t.subrange(k + a, k + b) =~= s.subrange(a, b));
    if i < s.len() {
        assert(t[k + i] == s[i]);
        if s[i] == '\\' {
            lemma_segments_shift(head, s, i + 1, i + 1);
        } else {
            lemma_segments_shift(head, s, start, i + 1);
        }
    }
}

/// A backslash at the end of a text ends its last segment and begins none.
pub proof fn lemma_segments_before_backslash(s: Seq<char>, start: int, i: int)
    requires
        0 <= start <= i <= s.len(),
    ensures
        segments_from(s.push('\\'), start, i) == segments_from(s, start, i),
    decreases s.len() - i,
{
    let t = s.push('\\');
    assert(forall|a: int, b: int|
        0 <= a <= b <= s.len() ==> #[trigger] t.subrange(a, b) =~= s.subrange(a, b));
    if i < s.len() {
        assert(t[i] == s[i]);
        if s[i] == '\\' {
            lemma_segments_before_backslash(s, i + 1, i + 1);
        } else {
            lemma_segments_before_backslash(s, start, i + 1);
        }
    } else {
        assert(t[i] == '\\');
        assert(segments_from(t, i + 1, i + 1) =~= Seq::<Seq<char>>::empty());
        assert(pending(t, start, i) + Seq::<Seq<char>>::empty() =~= pending(s, start, i));
    }
}

/// A namespace spelt with a backslash in front, behind, or both is the same
/// namespace.
pub proof fn lemma_backslashes_at_the_ends(s: Seq<char>)
    ensures
        segments_of(seq!['\\'] + s) == segments_of(s),
        segments_of(s.push('\\')) == segments_of(s),
        segments_of((seq!['\\'] + s).push('\\')) == segments_of(s),
{
    let head = seq!['\\'];
    lemma_segments_shift(head, s, 0, 0);
    assert((head + s)[0] == '\\');
    assert(pending(head + s, 0, 0) + segments_from(head + s, 1, 1) =~= segments_from(
        head + s,
        1,
        1,
    ));
    lemma_segments_before_backslash(s, 0, 0);
    lemma_segments_before_backslash(head + s, 0, 0);
}

/// A namespace as text: a backslash before each segment, and a lone
/// backslash for the root.
pub open spec fn joined(segments: Seq<Seq<char>>) -> Seq<char>
    decreases segments.len(),
{
    if segments.len() == 0 {
        seq!['\\']
    } else if segments.len() == 1 {
        seq!['\\'] + segments[0]
    } else {
        joined(segments.drop_last()) + seq!['\\'] + segments.last()
    }
}

/// The pool of namespace segments seen so far. It only grows.
#[derive(Debug)]
pub struct SegmentPool(pub NameSet);

impl View for SegmentPool {
    type V = Set<Seq<char>>;

    open spec fn view(&self) -> Set<Seq<char>> {
        self.0@
    }
}

impl SegmentPool {
    /// The pool without any segment.
    pub fn new() -> (r: Self)
        ensures
            r@ == Set::<Seq<char>>::empty(),
    {
        SegmentPool(NameSet::new())
    }

    /// The pool's own copy of the segment `s`, shared; the segment is added
    /// when it is new.
    pub fn intern_segment(&mut self, s: &str) -> (r: Arc<String>)
        ensures
            r@ == s@,
            final(self)@ == old(self)@.insert(s@),
    {
        match self.0.get(s) {
            Some(held) => {
                assert(self@.insert(s@) =~= self@);
                held.clone()
            },
            None => {
                let owned = Arc::new(s.to_owned());
                self.0.insert_shared(owned.clone());
                owned
            },
        }
    }

    /// The namespace made of the given segments, each of them interned as it
    /// stands.
    pub fn intern(&mut self, ns: &Vec<String>) -> (r: PhpNamespace)
        ensures
            r@ == views(ns@),
            final(self)@ == old(self)@.union(views(ns@).to_set()),
    {
        let mut parts: Vec<Arc<String>> = Vec::new();
        let mut i: usize = 0;
        while i < ns.len()
            invariant
                i <= ns.len(),
                parts@.len() == i,
                segments(parts@) == views(ns@).take(i as int),
                self@ == old(self)@.union(views(ns@).take(i as int).to_set()),
            decreases ns.len() - i,
        {
            let ghost before = segments(parts@);
            let seg = self.intern_segment(ns[i].as_str());
            parts.push(seg);
            proof {
                let t0 = views(ns@).take(i as int);
                let t1 = views(ns@).take(i as int + 1);
                assert(t1 =~= t0.push(ns@[i as int]@));
                lemma_to_set_push(t0, ns@[i as int]@);
                assert(segments(parts@) =~= before.push(ns@[i as int]@));
                assert(self@ =~= old(self)@.union(t1.to_set()));
            }
            i += 1;
        }
        proof {
            assert(views(ns@).take(ns.len() as int) =~= views(ns@));
        }
        PhpNamespace(parts)
    }

    /// The namespace that `ns` spells, with backslashes between segments.
    /// Leading, trailing and doubled backslashes count for nothing.
    pub fn intern_str(&mut self, ns: &str) -> (r: PhpNamespace)
        ensures
            r@ == segments_of(ns@),
            final(self)@ == old(self)@.union(segments_of(ns@).to_set()),
    {
        let mut parts: Vec<Arc<String>> = Vec::new();
        let mut start: usize = 0;
        let mut i: usize = 0;
        let total = ns.unicode_len();
        for c in it: ns.chars()
            invariant
                it.seq() == ns@,
                total == ns@.len(),
                i == it.index(),
                start <= i,
                segments_of(ns@) == segments(parts@) + segments_from(
                    ns@,
                    start as int,
                    i as int,
                ),
                self@ == old(self)@.union(segments(parts@).to_set()),
        {
            if c == '\\' {
                if start < i {
                    let ghost before = segments(parts@);
                    let piece = ns.substring_char(start, i);
                    let seg = self.intern_segment(piece);
                    parts.push(seg);
                    proof {
                        assert(segments(parts@) =~= before.push(piece@));
                        lemma_to_set_push(before, piece@);
                        assert(self@ =~= old(self)@.union(segments(parts@).to_set()));
                        assert(segments(parts@) + segments_from(ns@, i + 1, i + 1) =~= before
                            + segments_from(ns@, start as int, i as int));
                    }
                }
                start = i + 1;
            }
            i += 1;
        }
        if start < i {
            let ghost before = segments(parts@);
            let piece = ns.substring_char(start, i);
            let seg = self.intern_segment(piece);
            parts.push(seg);
            proof {
                assert(segments(parts@) =~= before.push(piece@));
                lemma_to_set_push(before, piece@);
                assert(self@ =~= old(self)@.union(segments(parts@).to_set()));
            }
        }
        assert(segments_of(ns@) =~= segments(parts@));
        PhpNamespace(parts)
    }
}

impl Clone for SegmentPool {
    fn clone(&self) -> (r: Self)
        ensures
            r@ == self@,
    {
        SegmentPool(self.0.clone())
    }
}

/// The set of a sequence with one more element is the set of the sequence
/// with that element added.
pub proof fn lemma_to_set_push<A>(s: Seq<A>, a: A)
    ensures
        s.push(a).to_set() == s.to_set().insert(a),
{
    let t = s.push(a);
    assert forall|x: A| t.to_set().contains(x) <==> s.to_set().insert(a).contains(x) by {
        if t.to_set().contains(x) {
            let k = choose|k: int| 0 <= k < t.len() && t[k] == x;
            if k < s.len() {
                assert(s[k] == x);
            }
        }
        if s.to_set().contains(x) {
            let k = choose|k: int| 0 <= k < s.len() && s[k] == x;
            assert(t[k] == x);
        }
        if x == a {
            assert(t[s.len() as int] == x);
        }
    }
    assert(t.to_set() =~= s.to_set().insert(a));
}

/// A namespace, given from the root by its segments.
#[derive(Debug)]
pub struct PhpNamespace(pub Vec<Arc<String>>);

impl View for PhpNamespace {
    type V = Seq<Seq<char>>;

    open spec fn view(&self) -> Seq<Seq<char>> {
        segments(self.0@)
    }
}

impl PhpNamespace {
    /// The root namespace, which has no segment.
    pub fn empty() -> (r: Self)
        ensures
            r@ == Seq::<Seq<char>>::empty(),
    {
        let r = PhpNamespace(Vec::new());
        assert(r@ =~= Seq::<Seq<char>>::empty());
        r
    }

    /// Whether `other` begins with the segments of this namespace.
    pub fn is_within(&self, other: &Self) -> (b: bool)
        ensures
            b == self@.is_prefix_of(other@),
    {
        if self.0.len() > other.0.len() {
            return false;
        }
        let mut i: usize = 0;
        while i < self.0.len()
            invariant
                i <= self.0.len(),
                self.0.len() <= other.0.len(),
                forall|j: int| 0 <= j < i ==> self@[j] == other@[j],
            decreases self.0.len() - i,
        {
            if !str_eq(self.0[i].as_str(), other.0[i].as_str()) {
                assert(self@[i as int] != other@.subrange(0, self@.len() as int)[i as int]);
                return false;
            }
            i += 1;
        }
        assert(self@ =~= other@.subrange(0, self@.len() as int));
        true
    }

    /// Whether this namespace begins with the segments of `other`.
    pub fn starts_with(&self, other: &Self) -> (b: bool)
        ensures
            b == other@.is_prefix_of(self@),
    {
        other.is_within(self)
    }

    /// Appends one segment.
    pub fn push(&mut self, s: Arc<String>)
        ensures
            final(self)@ == old(self)@.push(s@),
    {
        self.0.push(s);
        assert(self@ =~= old(self)@.push(s@));
    }

    /// Removes the last segment and returns it; `None` at the root.
    pub fn pop(&mut self) -> (r: Option<Arc<String>>)
        ensures
            match r {
                Some(s) => old(self)@.len() > 0 && s@ == old(self)@.last() && final(self)@ == old(
                    self,
                )@.drop_last(),
                None => old(self)@.len() == 0 && final(self)@ == old(self)@,
            },
    {
        let r = self.0.pop();
        proof {
            if r is Some {
                assert(self@ =~= old(self)@.drop_last());
            }
        }
        r
    }

    /// Appends the given segments in order.
    pub fn extend(&mut self, more: Vec<Arc<String>>)
        ensures
            final(self)@ == old(self)@ + segments(more@),
    {
        let mut more = more;
        let ghost added = segments(more@);
        self.0.append(&mut more);
        assert(self@ =~= old(self)@ + added);
    }

    /// Number of segments.
    pub fn len(&self) -> (n: usize)
        ensures
            n == self@.len(),
    {
        self.0.len()
    }

    /// What is left of this namespace below `other`; the root where this
    /// namespace does not begin with `other`.
    pub fn difference(&self, other: &Self) -> (r: Self)
        ensures
            r@ == if other@.is_prefix_of(self@) {
                self@.skip(other@.len() as int)
            } else {
                Seq::empty()
            },
    {
        if !other.is_within(self) {
            return Self::empty();
        }
        let mut out: Vec<Arc<String>> = Vec::new();
        let base: usize = other.len();
        let mut i: usize = base;
        while i < self.0.len()
            invariant
                base <= i <= self.0.len(),
                out@.len() == i - base,
                segments(out@) == self@.subrange(base as int, i as int),
            decreases self.0.len() - i,
        {
            let ghost before = segments(out@);
            out.push(self.0[i].clone());
            proof {
                assert(segments(out@) =~= before.push(self@[i as int]));
                assert(segments(out@) =~= self@.subrange(base as int, i as int + 1));
            }
            i += 1;
        }
        assert(self@.subrange(base as int, self@.len() as int) =~= self@.skip(base as int));
        PhpNamespace(out)
    }

    /// The directory that stands for `full`, given that `equiv` stands for
    /// this namespace: `equiv` with one component more for each segment that
    /// `full` has below this namespace.
    pub fn as_pathbuf(&self, equiv: &DirPath, full: &Self) -> (r: DirPath)
        ensures
            r.root@ == equiv.root@,
            views(r.parts@) == views(equiv.parts@) + if self@.is_prefix_of(full@) {
                full@.skip(self@.len() as int)
            } else {
                Seq::empty()
            },
    {
        let diff = full.difference(self);
        let mut file = equiv.clone();
        let ghost before = views(file.parts@);
        let mut i: usize = 0;
        assert(views(file.parts@) =~= before + diff@.take(0));
        while i < diff.0.len()
            invariant
                i <= diff.0.len(),
                file.root@ == equiv.root@,
                views(file.parts@) == before + diff@.take(i as int),
            decreases diff.0.len() - i,
        {
            let ghost sofar = views(file.parts@);
            file.parts.push(diff.0[i].as_str().to_owned());
            assert(views(file.parts@) =~= sofar.push(diff@[i as int]));
            assert(views(file.parts@) =~= before + diff@.take(i as int + 1));
            i += 1;
        }
        assert(diff@.take(diff.0.len() as int) =~= diff@);
        file
    }

    /// The namespace as text, a backslash before each segment.
    pub fn to_string(&self) -> (r: String)
        ensures
            r@ == joined(self@),
    {
        let mut out = String::from_str("\\");
        proof {
            reveal_strlit("\\");
            assert(out@ =~= seq!['\\']);
        }
        let mut i: usize = 0;
        while i < self.0.len()
            invariant
                i <= self.0.len(),
                "\\"@ == seq!['\\'],
                out@ == joined(self@.take(i as int)),
            decreases self.0.len() - i,
        {
            let ghost head = self@.take(i as int);
            let ghost next = self@.take(i as int + 1);
            if i > 0 {
                out.append("\\");
            }
            out.append(self.0[i].as_str());
            proof {
                assert(next.drop_last() =~= head);
                assert(next.last() == self@[i as int]);
                if i == 0 {
                    assert(next[0] == self@[0]);
                }
            }
            i += 1;
        }
        assert(self@.take(self.0.len() as int) =~= self@);
        out
    }
}

impl Clone for PhpNamespace {
    fn clone(&self) -> (r: Self)
        ensures
            r@ == self@,
    {
        let mut out: Vec<Arc<String>> = Vec::new();
        let mut i: usize = 0;
        while i < self.0.len()
            invariant
                i <= self.0.len(),
                out@.len() == i,
                segments(out@) == self@.take(i as int),
            decreases self.0.len() - i,
        {
            let ghost before = segments(out@);
            out.push(self.0[i].clone());
            proof {
                assert(segments(out@) =~= before.push(self@[i as int]));
                assert(segments(out@) =~= self@.take(i as int + 1));
            }
            i += 1;
        }
        assert(self@.take(self.0.len() as int) =~= self@);
        PhpNamespace(out)
    }
}

impl PhpNamespace {
    /// Whether both namespaces have the same segments.
    pub fn is_same(&self, other: &Self) -> (b: bool)
        ensures
            b == (self@ == other@),
    {
        let sub = self.is_within(other);
        proof {
            if self@.len() == other@.len() && self@.is_prefix_of(other@) {
                assert(other@.subrange(0, self@.len() as int) =~= other@);
            }
        }
        sub && self.0.len() == other.0.len()
    }
}

impl PartialEq for PhpNamespace {
    fn eq(&self, other: &Self) -> (b: bool) {
        self.is_same(other)
    }
}

impl PartialEqSpecImpl for PhpNamespace {
    open spec fn obeys_eq_spec() -> bool {
        true
    }

    open spec fn eq_spec(&self, other: &Self) -> bool {
        self@ == other@
    }
}

impl Eq for PhpNamespace {

}

/// A directory on disk: the directory it is counted from, as the autoload
/// table spells it, and the components below that.
#[derive(Debug)]
pub struct DirPath {
    pub root: String,
    pub parts: Vec<String>,
}

impl Clone for DirPath {
    fn clone(&self) -> (r: Self)
        ensures
            r.root@ == self.root@,
            views(r.parts@) == views(self.parts@),
    {
        let mut parts: Vec<String> = Vec::new();
        let mut i: usize = 0;
        while i < self.parts.len()
            invariant
                i <= self.parts.len(),
                parts@.len() == i,
                views(parts@) == views(self.parts@).take(i as int),
            decreases self.parts.len() - i,
        {
            let ghost before = views(parts@);
            parts.push(self.parts[i].clone());
            proof {
                assert(views(parts@) =~= before.push(self.parts@[i as int]@));
                assert(views(parts@) =~= views(self.parts@).take(i as int + 1));
            }
            i += 1;
        }
        assert(views(self.parts@).take(self.parts.len() as int) =~= views(self.parts@));
        DirPath { root: self.root.clone(), parts }
    }
}

} // verus!
