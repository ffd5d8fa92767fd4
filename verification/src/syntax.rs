use crate::text::{byte_slice, slice_bytes, str_eq};
use vstd::prelude::*;

verus! {

broadcast use vstd::std_specs::vec::axiom_vec_index_decreases;

/// A place in a text, by zero-based row and column.
#[derive(Clone, Copy, Debug, PartialEq, Eq, Structural)]
pub struct Point {
    pub row: usize,
    pub column: usize,
}

/// The stretch of text that a node covers, in bytes and in rows and columns.
#[derive(Clone, Copy, Debug, PartialEq, Eq, Structural)]
pub struct Span {
    pub start_byte: usize,
    pub end_byte: usize,
    pub start_point: Point,
    pub end_point: Point,
}

/// One node of a syntax tree, with everything below it.
#[derive(Debug)]
pub struct SyntaxNode {
    /// The grammar's name for this kind of node.
    pub kind: String,
    /// The field of the parent that holds this node, if it has a name.
    pub field: Option<String>,
    /// For a node that the parser put in for something that the text lacks,
    /// what the parser prints for it.
    pub missing: Option<String>,
    pub span: Span,
    pub children: Vec<SyntaxNode>,
}

/// The deepest tree that is taken over from the parser. Walks over a tree
/// recurse once per level, so this bounds the stack they need.
pub const MAX_DEPTH: usize = 512;

impl SyntaxNode {
    /// Whether the tree below this node, the node included, has at most
    /// `depth` levels.
    pub open spec fn fits(&self, depth: nat) -> bool
        decreases self,
    {
        depth > 0 && forall|i: int|
            0 <= i < self.children@.len() ==> (#[trigger] self.children@[i]).fits(
                (depth - 1) as nat,
            )
    }

    /// The text that the node covers, where its byte offsets fall on
    /// character boundaries of `content`.
    pub open spec fn text_in(&self, content: Seq<char>) -> Option<Seq<char>> {
        byte_slice(content, self.span.start_byte as int, self.span.end_byte as int)
    }

    /// Whether the parent holds this node in the field `name`.
    pub open spec fn in_field(&self, name: Seq<char>) -> bool {
        match self.field {
            Some(f) => f@ == name,
            None => false,
        }
    }

    /// Whether `i` is the first child in the field `name`.
    pub open spec fn first_in_field(&self, name: Seq<char>, i: int) -> bool {
        &&& 0 <= i < self.children@.len()
        &&& self.children@[i].in_field(name)
        &&& forall|j: int| 0 <= j < i ==> !(#[trigger] self.children@[j]).in_field(name)
    }

    /// The place of the first child in the field `name`.
    pub open spec fn field_index(&self, name: Seq<char>) -> Option<int> {
        if exists|i: int| self.first_in_field(name, i) {
            Some(choose|i: int| self.first_in_field(name, i))
        } else {
            None
        }
    }

    /// The first child in the field `name`.
    pub open spec fn field_child(&self, name: Seq<char>) -> Option<SyntaxNode> {
        match self.field_index(name) {
            Some(i) => Some(self.children@[i]),
            None => None,
        }
    }

    /// The child at place `i`.
    pub open spec fn child_at(&self, i: int) -> Option<SyntaxNode> {
        if 0 <= i < self.children@.len() {
            Some(self.children@[i])
        } else {
            None
        }
    }

    /// Whether the node is of the kind `kind`.
    pub fn is(&self, kind: &str) -> (b: bool)
        ensures
            b == (self.kind@ == kind@),
    {
        str_eq(self.kind.as_str(), kind)
    }

    /// The text that the node covers. `None` where its byte offsets do not
    /// cut `content` at character boundaries, as with a tree of another text.
    pub fn text<'a>(&self, content: &'a str) -> (r: Option<&'a str>)
        ensures
            match r {
                Some(s) => self.text_in(content@) == Some(s@),
                None => self.text_in(content@) is None,
            },
    {
        slice_bytes(content, self.span.start_byte, self.span.end_byte)
    }

    /// The child at place `i`, if there are that many.
    pub fn child(&self, i: usize) -> (r: Option<&SyntaxNode>)
        ensures
            match r {
                Some(c) => self.child_at(i as int) == Some(*c),
                None => self.child_at(i as int) is None,
            },
    {
        if i < self.children.len() {
            Some(&self.children[i])
        } else {
            None
        }
    }

    /// The place of the first child that the node holds in the field `name`.
    pub fn field_position(&self, name: &str) -> (r: Option<usize>)
        ensures
            match r {
                Some(i) => self.field_index(name@) == Some(i as int) && i < self.children@.len(),
                None => self.field_index(name@) is None,
            },
    {
        let mut i: usize = 0;
        while i < self.children.len()
            invariant
                i <= self.children.len(),
                forall|j: int| 0 <= j < i ==> !(#[trigger] self.children@[j]).in_field(name@),
            decreases self.children.len() - i,
        {
            let hit = match &self.children[i].field {
                Some(f) => str_eq(f.as_str(), name),
                None => false,
            };
            if hit {
                proof {
                    assert(self.first_in_field(name@, i as int));
                    let k = choose|k: int| self.first_in_field(name@, k);
                    assert(k == i) by {
                        if k < i {
                            assert(!self.children@[k].in_field(name@));
                        } else if i < k {
                            assert(!self.children@[i as int].in_field(name@));
                        }
                    }
                }
                return Some(i);
            }
            i += 1;
        }
        proof {
            assert forall|k: int| !self.first_in_field(name@, k) by {
                if self.first_in_field(name@, k) {
                    assert(!self.children@[k].in_field(name@));
                }
            }
        }
        None
    }

    /// The first child that the node holds in the field `name`.
    pub fn child_by_field_name(&self, name: &str) -> (r: Option<&SyntaxNode>)
        ensures
            match r {
                Some(c) => self.field_child(name@) == Some(*c),
                None => self.field_child(name@) is None,
            },
    {
        match self.field_position(name) {
            Some(i) => Some(&self.children[i]),
            None => None,
        }
    }
}

/// `tree_sitter::Node`: a node of a tree of the parser. Nothing is known of
/// what it holds.
#[verifier::external_type_specification]
#[verifier::external_body]
pub struct ExNode<'tree>(tree_sitter::Node<'tree>);

/// `tree_sitter::Tree`: a tree of the parser. Nothing is known of what it
/// holds.
#[verifier::external_type_specification]
#[verifier::external_body]
pub struct ExTree(tree_sitter::Tree);

/// `tree_sitter::Parser`: a parser. Nothing is known of what it holds.
#[verifier::external_type_specification]
#[verifier::external_body]
pub struct ExParser(tree_sitter::Parser);

/// `tree_sitter::Node::kind`: the grammar's name for the node's kind. Nothing
/// is claimed of it.
#[verifier::external_body]
fn ts_kind(node: &tree_sitter::Node<'_>) -> (kind: String) {
    node.kind().to_string()
}

/// `tree_sitter::Node::range`: where the node stands in the text. Nothing is
/// claimed of it.
#[verifier::external_body]
fn ts_span(node: &tree_sitter::Node<'_>) -> (span: Span) {
    let r = node.range();
    Span {
        start_byte: r.start_byte,
        end_byte: r.end_byte,
        start_point: Point { row: r.start_point.row, column: r.start_point.column },
        end_point: Point { row: r.end_point.row, column: r.end_point.column },
    }
}

/// `tree_sitter::Node::child_count`: how many children the node has. Nothing
/// is claimed of it.
#[verifier::external_body]
fn ts_child_count(node: &tree_sitter::Node<'_>) -> (n: usize) {
    node.child_count()
}

/// `tree_sitter::Node::child`: the child at a place, if the node has one
/// there. Nothing is claimed of it.
#[verifier::external_body]
fn ts_child<'tree>(node: &tree_sitter::Node<'tree>, i: usize) -> (child: Option<
    tree_sitter::Node<'tree>,
>) {
    node.child(i)
}

/// `tree_sitter::Node::field_name_for_child`: the name of the field in which
/// the node holds the child at a place. Nothing is claimed of it.
#[verifier::external_body]
fn ts_field_name(node: &tree_sitter::Node<'_>, i: u32) -> (name: Option<String>) {
    node.field_name_for_child(i).map(|s| s.to_string())
}

/// `tree_sitter::Node::is_missing`: whether the parser put the node in for
/// something that the text lacks. Nothing is claimed of it.
#[verifier::external_body]
fn ts_is_missing(node: &tree_sitter::Node<'_>) -> (missing: bool) {
    node.is_missing()
}

/// `tree_sitter::Node::to_sexp`: what the parser prints for the node.
/// Nothing is claimed of it.
#[verifier::external_body]
fn ts_to_sexp(node: &tree_sitter::Node<'_>) -> (sexp: String) {
    node.to_sexp()
}

/// `tree_sitter::Tree::root_node`: the node at the top of a tree. Nothing is
/// claimed of it.
#[verifier::external_body]
fn ts_root<'tree>(tree: &'tree tree_sitter::Tree) -> (root: tree_sitter::Node<'tree>) {
    tree.root_node()
}

/// The field name of the child at place `i`, where the place can be asked
/// for: the parser counts places in 32 bits, and a place beyond them has no
/// name. Of a place that can be asked for, the parser alone says whether it
/// has a name and which.
fn field_of(node: &tree_sitter::Node<'_>, i: usize) -> (name: Option<String>)
    ensures
        i > u32::MAX ==> name is None,
{
    if i <= u32::MAX as usize {
        ts_field_name(node, i as u32)
    } else {
        None
    }
}

/// Takes over the tree below `node`, the node included, as long as it has at
/// most `depth` levels; `None` for a deeper one.
pub fn lower(node: tree_sitter::Node<'_>, depth: usize) -> (r: Option<SyntaxNode>)
    ensures
        match r {
            Some(n) => n.fits(depth as nat) && n.field is None,
            None => true,
        },
{
    lower_in(node, None, depth)
}

/// As `lower`, for a node that its parent holds in `field`.
fn lower_in(node: tree_sitter::Node<'_>, field: Option<String>, depth: usize) -> (r: Option<
    SyntaxNode,
>)
    ensures
        match r {
            Some(n) => n.fits(depth as nat) && n.field == field,
            None => true,
        },
    decreases depth,
{
    if depth == 0 {
        return None;
    }
    let kind = ts_kind(&node);
    let span = ts_span(&node);
    let missing = if ts_is_missing(&node) {
        Some(ts_to_sexp(&node))
    } else {
        None
    };
    let n = ts_child_count(&node);
    let mut children: Vec<SyntaxNode> = Vec::new();
    let mut i: usize = 0;
    while i < n
        invariant
            depth > 0,
            forall|j: int|
                0 <= j < children@.len() ==> (#[trigger] children@[j]).fits((depth - 1) as nat),
        decreases n - i,
    {
        match ts_child(&node, i) {
            Some(c) => {
                let name = field_of(&node, i);
                match lower_in(c, name, depth - 1) {
                    Some(l) => {
                        children.push(l);
                    },
                    None => {
                        return None;
                    },
                }
            },
            None => {},
        }
        i += 1;
    }
    Some(SyntaxNode { kind, field, missing, span, children })
}

/// The syntax tree that `tree` holds, or `None` where it is deeper than
/// `MAX_DEPTH` levels.
pub fn lower_tree(tree: &tree_sitter::Tree) -> (r: Option<SyntaxNode>)
    ensures
        match r {
            Some(n) => n.fits(MAX_DEPTH as nat),
            None => true,
        },
{
    lower(ts_root(tree), MAX_DEPTH)
}


/// A change of a text as the parser must be told of it: the bytes replaced,
/// the end of what replaced them, and the same three places as points.
#[derive(Clone, Copy, Debug, PartialEq, Eq, Structural)]
pub struct Edit {
    pub start_byte: usize,
    pub old_end_byte: usize,
    pub new_end_byte: usize,
    pub start_position: Point,
    pub old_end_position: Point,
    pub new_end_position: Point,
}

/// `tree_sitter::IncludedRangesError`: why a parser refused the ranges it
/// was to read. Nothing is known of what it holds.
#[verifier::external_type_specification]
#[verifier::external_body]
pub struct ExIncludedRangesError(tree_sitter::IncludedRangesError);

/// `tree_sitter::Parser::parse`: the tree for a text, built on an earlier
/// tree of the same document where one is given; `None` where the parser
/// gives none. Nothing is claimed of the tree.
#[verifier::external_body]
pub(crate) fn ts_parse(
    parser: &mut tree_sitter::Parser,
    text: &str,
    old_tree: Option<&tree_sitter::Tree>,
) -> (tree: Option<tree_sitter::Tree>) {
    parser.parse(text, old_tree)
}

/// `tree_sitter::Tree::edit`: tells a tree of a change to its text. Nothing
/// is claimed of the tree afterwards.
#[verifier::external_body]
pub(crate) fn ts_edit(tree: &mut tree_sitter::Tree, edit: &Edit) {
    let (from, old, new) = (edit.start_position, edit.old_end_position, edit.new_end_position);
    tree.edit(
        &tree_sitter::InputEdit {
            start_byte: edit.start_byte,
            old_end_byte: edit.old_end_byte,
            new_end_byte: edit.new_end_byte,
            start_position: tree_sitter::Point::new(from.row, from.column),
            old_end_position: tree_sitter::Point::new(old.row, old.column),
            new_end_position: tree_sitter::Point::new(new.row, new.column),
        },
    )
}

/// `tree_sitter::Parser::set_included_ranges`: has the parser read only the
/// given stretches of a text. It may refuse them; nothing is claimed of when.
#[verifier::external_body]
pub(crate) fn ts_set_included_ranges(parser: &mut tree_sitter::Parser, ranges: &Vec<Span>) -> (r:
    Result<(), tree_sitter::IncludedRangesError>) {
    let converted: Vec<tree_sitter::Range> = ranges.iter().map(
        |s| tree_sitter::Range {
            start_byte: s.start_byte,
            end_byte: s.end_byte,
            start_point: tree_sitter::Point::new(s.start_point.row, s.start_point.column),
            end_point: tree_sitter::Point::new(s.end_point.row, s.end_point.column),
        },
    ).collect();
    parser.set_included_ranges(&converted)
}

/// The spans of the comments among the first `n` children of `node` and
/// below them, in the order of the text.
pub open spec fn comments_upto(node: SyntaxNode, n: nat) -> Seq<Span>
    decreases node, 0nat, n,
{
    if n == 0 || n > node.children@.len() {
        Seq::empty()
    } else {
        comments_upto(node, (n - 1) as nat) + comments_in(node.children@[n - 1])
    }
}

/// The spans of the comments at and below `node`, in the order of the text.
pub open spec fn comments_in(node: SyntaxNode) -> Seq<Span>
    decreases node, 1nat, 0nat,
{
    if node.kind@ == "comment"@ {
        seq![node.span] + comments_upto(node, node.children@.len())
    } else {
        comments_upto(node, node.children@.len())
    }
}

/// Adds the spans of the comments at and below `node` to `spans`.
fn collect_comments(node: &SyntaxNode, spans: &mut Vec<Span>)
    ensures
        final(spans)@ == old(spans)@ + comments_in(*node),
    decreases node,
{
    let ghost start = spans@;
    if node.is("comment") {
        spans.push(node.span);
    }
    let ghost head = spans@;
    let mut i: usize = 0;
    assert(spans@ =~= head + comments_upto(*node, 0));
    while i < node.children.len()
        invariant
            i <= node.children.len(),
            spans@ == head + comments_upto(*node, i as nat),
        decreases node.children.len() - i,
    {
        collect_comments(&node.children[i], spans);
        assert(spans@ =~= head + comments_upto(*node, (i + 1) as nat));
        i += 1;
    }
    assert(spans@ =~= start + comments_in(*node));
}

/// The spans of the comments in the tree below `root`, in the order of the
/// text.
pub fn comment_spans(root: &SyntaxNode) -> (spans: Vec<Span>)
    ensures
        spans@ == comments_in(*root),
{
    let mut spans: Vec<Span> = Vec::new();
    collect_comments(root, &mut spans);
    assert(spans@ =~= comments_in(*root));
    spans
}

} // verus!
