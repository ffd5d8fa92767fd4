use crate::names::{NameMap, NameSet};
use crate::syntax::SyntaxNode;
use crate::text::slice_bytes;
use vstd::prelude::*;
use vstd::string::StrSliceExecFns;
use vstd::string::StringExecFns;

verus! {

broadcast use vstd::std_specs::vec::axiom_vec_index_decreases;

/// Why a map of stubs could not be read.
#[derive(Debug)]
pub enum MappingError {
    NoMappingFound,
    /// An entry lacks its name or its file.
    NoChildFound,
    /// A node of the first kind stands where one of the second was expected.
    UnexpectedType(String, String),
    MissingNameNode,
    BadStubName(String),
}

/// An error with its texts as sequences of characters.
pub enum MappingErrorView {
    NoMappingFound,
    NoChildFound,
    UnexpectedType(Seq<char>, Seq<char>),
    MissingNameNode,
    BadStubName(Seq<char>),
}

impl View for MappingError {
    type V = MappingErrorView;

    open spec fn view(&self) -> MappingErrorView {
        match self {
            MappingError::NoMappingFound => MappingErrorView::NoMappingFound,
            MappingError::NoChildFound => MappingErrorView::NoChildFound,
            MappingError::UnexpectedType(a, b) => MappingErrorView::UnexpectedType(a@, b@),
            MappingError::MissingNameNode => MappingErrorView::MissingNameNode,
            MappingError::BadStubName(s) => MappingErrorView::BadStubName(s@),
        }
    }
}

/// An error of reading a map of stubs in words.
pub open spec fn mapping_message(e: MappingErrorView) -> Seq<char> {
    match e {
        MappingErrorView::NoMappingFound => "no mapping found"@,
        MappingErrorView::NoChildFound => "no child found"@,
        MappingErrorView::MissingNameNode => "missing name node"@,
        MappingErrorView::UnexpectedType(actual, expected) => "found type "@ + actual
            + " (expected "@ + expected + ")"@,
        MappingErrorView::BadStubName(name) => "unknown stubs mapping with name "@ + name,
    }
}

impl MappingError {
    /// The error in words.
    pub fn to_string(&self) -> (r: String)
        ensures
            r@ == mapping_message(self@),
    {
        match self {
            MappingError::NoMappingFound => String::from_str("no mapping found"),
            MappingError::NoChildFound => String::from_str("no child found"),
            MappingError::MissingNameNode => String::from_str("missing name node"),
            MappingError::UnexpectedType(actual, expected) => {
                let mut out = String::from_str("found type ");
                out.append(actual.as_str());
                out.append(" (expected ");
                out.append(expected.as_str());
                out.append(")");
                out
            },
            MappingError::BadStubName(name) => {
                let mut out = String::from_str("unknown stubs mapping with name ");
                out.append(name.as_str());
                out
            },
        }
    }
}

/// For each built-in name the file that declares it.
#[derive(Debug)]
pub struct FileMapping {
    mapping: NameMap<String>,
    /// The files that occur, each once.
    files: NameSet,
}

/// A map of stubs as a map and a set of texts.
pub struct MappingView {
    pub mapping: Map<Seq<char>, Seq<char>>,
    pub files: Set<Seq<char>>,
}

/// `s` from place `i` on, with each pair of backslashes made one.
pub open spec fn unescaped_from(s: Seq<char>, i: int) -> Seq<char>
    decreases s.len() - i,
{
    if i < 0 || i >= s.len() {
        Seq::empty()
    } else if s[i] == '\\' && i + 1 < s.len() && s[i + 1] == '\\' {
        seq!['\\'] + unescaped_from(s, i + 2)
    } else {
        seq![s[i]] + unescaped_from(s, i + 1)
    }
}

/// `s` with each pair of backslashes made one, from left to right.
pub open spec fn unescaped(s: Seq<char>) -> Seq<char> {
    unescaped_from(s, 0)
}

/// The text that the string literal `node` stands for: what is between its
/// quotes, with each pair of backslashes made one. A node of another kind is
/// unexpected; a string that does not lie in `content` has no text.
pub open spec fn string_of(node: SyntaxNode, content: Seq<char>) -> Result<
    Seq<char>,
    MappingErrorView,
> {
    if node.kind@ == "string"@ {
        match crate::text::byte_slice(
            content,
            node.span.start_byte + 1,
            node.span.end_byte - 1,
        ) {
            Some(inner) => Ok(unescaped(inner)),
            None => Err(MappingErrorView::NoChildFound),
        }
    } else {
        Err(MappingErrorView::UnexpectedType(node.kind@, "string"@))
    }
}

/// The name and the file that the entry `node` of an array gives: its first
/// and its third child, both strings.
pub open spec fn entry_of(node: SyntaxNode, content: Seq<char>) -> Result<
    (Seq<char>, Seq<char>),
    MappingErrorView,
> {
    match node.child_at(0) {
        None => Err(MappingErrorView::NoChildFound),
        Some(first) => match string_of(first, content) {
            Err(e) => Err(e),
            Ok(name) => match node.child_at(2) {
                None => Err(MappingErrorView::NoChildFound),
                Some(third) => match string_of(third, content) {
                    Err(e) => Err(e),
                    Ok(file) => Ok((name, file)),
                },
            },
        },
    }
}

/// The map after the entries among the first `n` children of the array
/// `node`; the first entry that cannot be read ends the reading.
pub open spec fn entries_upto(
    node: SyntaxNode,
    content: Seq<char>,
    before: Result<MappingView, MappingErrorView>,
    n: nat,
) -> Result<MappingView, MappingErrorView>
    decreases n,
{
    if n == 0 || n > node.children@.len() {
        before
    } else {
        match entries_upto(node, content, before, (n - 1) as nat) {
            Err(e) => Err(e),
            Ok(m) => if node.children@[n - 1].kind@ == "array_element_initializer"@ {
                match entry_of(node.children@[n - 1], content) {
                    Err(e) => Err(e),
                    Ok((name, file)) => Ok(
                        MappingView {
                            mapping: m.mapping.insert(name, file),
                            files: m.files.insert(file),
                        },
                    ),
                }
            } else {
                Ok(m)
            },
        }
    }
}

/// The map after the arrays among the first `n` children of `node` and
/// below them.
pub open spec fn arrays_upto(
    node: SyntaxNode,
    content: Seq<char>,
    before: Result<MappingView, MappingErrorView>,
    n: nat,
) -> Result<MappingView, MappingErrorView>
    decreases node, 0nat, n,
{
    if n == 0 || n > node.children@.len() {
        before
    } else {
        arrays_in(
            node.children@[n - 1],
            content,
            arrays_upto(node, content, before, (n - 1) as nat),
        )
    }
}

/// The map after each array at and below `node`, in the order of the text:
/// every entry of every array maps a name to a file.
pub open spec fn arrays_in(
    node: SyntaxNode,
    content: Seq<char>,
    before: Result<MappingView, MappingErrorView>,
) -> Result<MappingView, MappingErrorView>
    decreases node, 1nat, 0nat,
{
    let here = if node.kind@ == "array_creation_expression"@ {
        entries_upto(node, content, before, node.children@.len())
    } else {
        before
    };
    arrays_upto(node, content, here, node.children@.len())
}

/// Once the reading has failed, nothing is read any more.
pub proof fn lemma_failed_stays(node: SyntaxNode, content: Seq<char>, e: MappingErrorView, n: nat)
    ensures
        entries_upto(node, content, Err(e), n) == Err::<MappingView, MappingErrorView>(e),
        arrays_upto(node, content, Err(e), n) == Err::<MappingView, MappingErrorView>(e),
        arrays_in(node, content, Err(e)) == Err::<MappingView, MappingErrorView>(e),
    decreases node, 2nat, n,
{
    lemma_entries_failed(node, content, e, n);
    lemma_arrays_failed(node, content, e, n);
    lemma_entries_failed(node, content, e, node.children@.len());
    lemma_arrays_failed(node, content, e, node.children@.len());
}

proof fn lemma_entries_failed(node: SyntaxNode, content: Seq<char>, e: MappingErrorView, n: nat)
    ensures
        entries_upto(node, content, Err(e), n) == Err::<MappingView, MappingErrorView>(e),
    decreases n,
{
    if n > 0 && n <= node.children@.len() {
        lemma_entries_failed(node, content, e, (n - 1) as nat);
    }
}

proof fn lemma_arrays_failed(node: SyntaxNode, content: Seq<char>, e: MappingErrorView, n: nat)
    ensures
        arrays_upto(node, content, Err(e), n) == Err::<MappingView, MappingErrorView>(e),
    decreases node, 0nat, n,
{
    if n > 0 && n <= node.children@.len() {
        lemma_arrays_failed(node, content, e, (n - 1) as nat);
        let child = node.children@[n - 1];
        let failed = Err::<MappingView, MappingErrorView>(e);
        lemma_entries_failed(child, content, e, child.children@.len());
        lemma_arrays_failed(child, content, e, child.children@.len());
        assert(arrays_in(child, content, failed) == failed);
    }
}

/// `text` with each pair of backslashes made one.
pub fn unescape(text: &str) -> (r: String)
    ensures
        r@ == unescaped(text@),
{
    let mut out = String::new();
    let total = text.unicode_len();
    let mut start: usize = 0;
    let mut i: usize = 0;
    let mut pending = false;
    assert(out@ + text@.subrange(0, 0) =~= Seq::<char>::empty());
    for c in it: text.chars()
        invariant
            it.seq() == text@,
            total == text@.len(),
            start <= total,
            i == it.index(),
            pending ==> i > 0 && text@[i - 1] == '\\' && start < i,
            !pending ==> start <= i,
            pending ==> unescaped(text@) == out@ + text@.subrange(start as int, i - 1)
                + unescaped_from(text@, i - 1),
            !pending ==> unescaped(text@) == out@ + text@.subrange(start as int, i as int)
                + unescaped_from(text@, i as int),
    {
        if pending && c == '\\' {
            let ghost before = out@;
            out.append(text.substring_char(start, i));
            assert(out@ + text@.subrange(i + 1, i + 1) + unescaped_from(text@, i + 1) =~= before
                + text@.subrange(start as int, i - 1) + unescaped_from(text@, i - 1));
            start = i + 1;
            pending = false;
        } else {
            proof {
                if pending {
                    assert(text@.subrange(start as int, i as int) =~= text@.subrange(
                        start as int,
                        i - 1,
                    ).push(text@[i - 1]));
                    assert(out@ + text@.subrange(start as int, i as int) + unescaped_from(
                        text@,
                        i as int,
                    ) =~= out@ + text@.subrange(start as int, i - 1) + unescaped_from(
                        text@,
                        i - 1,
                    ));
                }
                if c != '\\' {
                    assert(text@.subrange(start as int, i + 1) =~= text@.subrange(
                        start as int,
                        i as int,
                    ).push(text@[i as int]));
                    assert(out@ + text@.subrange(start as int, i + 1) + unescaped_from(
                        text@,
                        i + 1,
                    ) =~= out@ + text@.subrange(start as int, i as int) + unescaped_from(
                        text@,
                        i as int,
                    ));
                }
            }
            pending = c == '\\';
        }
        i += 1;
    }
    proof {
        assert(i == total);
        assert(unescaped_from(text@, i as int) =~= Seq::<char>::empty());
        if pending {
            assert(text@.subrange(start as int, i as int) =~= text@.subrange(
                start as int,
                i - 1,
            ).push(text@[i - 1]));
            assert(unescaped_from(text@, i - 1) =~= seq![text@[i - 1]]);
        }
        assert(unescaped(text@) =~= out@ + text@.subrange(start as int, i as int));
    }
    out.append(text.substring_char(start, i));
    out
}

impl FileMapping {
    /// The map as a map and a set of texts.
    pub closed spec fn view(&self) -> MappingView {
        MappingView { mapping: self.mapping@.map_values(|f: String| f@), files: self.files@ }
    }

    /// The map without any name.
    pub fn new() -> (r: Self)
        ensures
            r.view() == (MappingView { mapping: Map::empty(), files: Set::empty() }),
    {
        let r = FileMapping { mapping: NameMap::new(), files: NameSet::new() };
        assert(r.view().mapping =~= Map::<Seq<char>, Seq<char>>::empty());
        r
    }

    /// The file that declares `name`.
    pub fn get(&self, name: &str) -> (r: Option<&String>)
        ensures
            match r {
                Some(f) => self.view().mapping.contains_key(name@) && self.view().mapping[name@]
                    == f@,
                None => !self.view().mapping.contains_key(name@),
            },
    {
        self.mapping.get(name)
    }

    /// How many names are mapped.
    pub fn len(&self) -> (n: usize)
        ensures
            n == self.view().mapping.len(),
    {
        let n = self.mapping.len();
        proof {
            assert(self.view().mapping.dom() =~= self.mapping@.dom());
        }
        n
    }

    /// How many files occur.
    pub fn files_len(&self) -> (n: usize)
        ensures
            n == self.view().files.len(),
    {
        self.files.len()
    }

    /// Whether `file` occurs.
    pub fn has_file(&self, file: &str) -> (b: bool)
        ensures
            b == self.view().files.contains(file@),
    {
        self.files.contains(file)
    }

    /// The text that a string literal stands for.
    pub fn node_to_string(node: &SyntaxNode, content: &str) -> (r: Result<String, MappingError>)
        ensures
            match (r, string_of(*node, content@)) {
                (Ok(s), Ok(v)) => s@ == v,
                (Err(e), Err(v)) => e@ == v,
                _ => false,
            },
    {
        if node.is("string") {
            let start = node.span.start_byte;
            let end = node.span.end_byte;
            let total = content.as_bytes().len();
            if start >= total || end == 0 {
                return Err(MappingError::NoChildFound);
            }
            match slice_bytes(content, start + 1, end - 1) {
                Some(inner) => Ok(unescape(inner)),
                None => Err(MappingError::NoChildFound),
            }
        } else {
            Err(MappingError::UnexpectedType(node.kind.clone(), String::from_str("string")))
        }
    }

    /// The name and the file that one entry of an array gives.
    pub fn node_to_single_mapping(node: &SyntaxNode, content: &str) -> (r: Result<
        (String, String),
        MappingError,
    >)
        ensures
            match (r, entry_of(*node, content@)) {
                (Ok(s), Ok(v)) => s.0@ == v.0 && s.1@ == v.1,
                (Err(e), Err(v)) => e@ == v,
                _ => false,
            },
    {
        let first = match node.child(0) {
            Some(c) => c,
            None => {
                return Err(MappingError::NoChildFound);
            },
        };
        let item1 = match Self::node_to_string(first, content) {
            Ok(s) => s,
            Err(e) => {
                return Err(e);
            },
        };
        let third = match node.child(2) {
            Some(c) => c,
            None => {
                return Err(MappingError::NoChildFound);
            },
        };
        let item2 = match Self::node_to_string(third, content) {
            Ok(s) => s,
            Err(e) => {
                return Err(e);
            },
        };
        Ok((item1, item2))
    }

    /// Takes in each array at and below `node`.
    fn take_arrays(&mut self, node: &SyntaxNode, content: &str) -> (r: Result<(), MappingError>)
        ensures
            match (r, arrays_in(*node, content@, Ok(old(self).view()))) {
                (Ok(()), Ok(v)) => final(self).view() == v,
                (Err(e), Err(v)) => e@ == v,
                _ => false,
            },
        decreases node,
    {
        let ghost start: Result<MappingView, MappingErrorView> = Ok(self.view());
        if node.is("array_creation_expression") {
            let mut i: usize = 0;
            while i < node.children.len()
                invariant
                    i <= node.children.len(),
                    node.kind@ == "array_creation_expression"@,
                    start == Ok::<MappingView, MappingErrorView>(old(self).view()),
                    entries_upto(*node, content@, start, i as nat) == Ok::<
                        MappingView,
                        MappingErrorView,
                    >(self.view()),
                decreases node.children.len() - i,
            {
                let child = &node.children[i];
                if child.is("array_element_initializer") {
                    match Self::node_to_single_mapping(child, content) {
                        Ok((name, file)) => {
                            let ghost before = self.view();
                            let ghost n = name@;
                            let ghost f = file@;
                            self.mapping.insert(name, file.clone());
                            self.files.insert(file);
                            assert(self.view().mapping =~= before.mapping.insert(n, f));
                        },
                        Err(e) => {
                            proof {
                                let failed = Err::<MappingView, MappingErrorView>(e@);
                                assert(entries_upto(*node, content@, start, (i + 1) as nat)
                                    == failed);
                                lemma_entries_rest_failed(
                                    *node,
                                    content@,
                                    start,
                                    (i + 1) as nat,
                                    node.children@.len(),
                                );
                                assert(entries_upto(*node, content@, start, node.children@.len())
                                    == failed);
                                lemma_arrays_failed(*node, content@, e@, node.children@.len());
                                assert(arrays_in(*node, content@, start) == failed);
                            }
                            return Err(e);
                        },
                    }
                }
                i += 1;
            }
        }
        let ghost here = if node.kind@ == "array_creation_expression"@ {
            entries_upto(*node, content@, start, node.children@.len())
        } else {
            start
        };
        let mut i: usize = 0;
        while i < node.children.len()
            invariant
                i <= node.children.len(),
                start == Ok::<MappingView, MappingErrorView>(old(self).view()),
                arrays_in(*node, content@, start) == arrays_upto(
                    *node,
                    content@,
                    here,
                    node.children@.len(),
                ),
                arrays_upto(*node, content@, here, i as nat) == Ok::<MappingView, MappingErrorView>(
                    self.view(),
                ),
            decreases node.children.len() - i,
        {
            match self.take_arrays(&node.children[i], content) {
                Ok(()) => {},
                Err(e) => {
                    proof {
                        let failed = Err::<MappingView, MappingErrorView>(e@);
                        assert(arrays_upto(*node, content@, here, (i + 1) as nat) == failed);
                        lemma_arrays_rest_failed(
                            *node,
                            content@,
                            here,
                            (i + 1) as nat,
                            node.children@.len(),
                        );
                        assert(arrays_upto(*node, content@, here, node.children@.len()) == failed);
                        assert(arrays_in(*node, content@, start) == failed);
                    }
                    return Err(e);
                },
            }
            i += 1;
        }
        Ok(())
    }

    /// The map that the arrays of a file of stubs spell out: each entry of
    /// each array at and below `node` maps a name to a file, a later entry
    /// for a name taking the place of an earlier one.
    pub fn node_to_mapping(node: &SyntaxNode, content: &str) -> (r: Result<Self, MappingError>)
        ensures
            match (
                r,
                arrays_in(
                    *node,
                    content@,
                    Ok(MappingView { mapping: Map::empty(), files: Set::empty() }),
                ),
            ) {
                (Ok(m), Ok(v)) => m.view() == v,
                (Err(e), Err(v)) => e@ == v,
                _ => false,
            },
    {
        let mut m = FileMapping::new();
        match m.take_arrays(node, content) {
            Ok(()) => Ok(m),
            Err(e) => Err(e),
        }
    }
}

/// A reading of entries that has failed stays failed to the end.
pub proof fn lemma_entries_rest_failed(
    node: SyntaxNode,
    content: Seq<char>,
    before: Result<MappingView, MappingErrorView>,
    k: nat,
    n: nat,
)
    requires
        k <= n <= node.children@.len(),
        entries_upto(node, content, before, k) is Err,
    ensures
        entries_upto(node, content, before, n) == entries_upto(node, content, before, k),
    decreases n - k,
{
    if k < n {
        lemma_entries_rest_failed(node, content, before, k, (n - 1) as nat);
    }
}

/// A reading of arrays that has failed stays failed to the end.
pub proof fn lemma_arrays_rest_failed(
    node: SyntaxNode,
    content: Seq<char>,
    before: Result<MappingView, MappingErrorView>,
    k: nat,
    n: nat,
)
    requires
        k <= n <= node.children@.len(),
        arrays_upto(node, content, before, k) is Err,
    ensures
        arrays_upto(node, content, before, n) == arrays_upto(node, content, before, k),
    decreases n - k,
{
    if k < n {
        lemma_arrays_rest_failed(node, content, before, k, (n - 1) as nat);
        let e = arrays_upto(node, content, before, k)->Err_0;
        let child = node.children@[n - 1];
        lemma_failed_stays(child, content, e, 0);
    }
}

} // verus!
