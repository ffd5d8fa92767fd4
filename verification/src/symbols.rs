use crate::diagnostics::{range_of, to_range, Range};
use crate::syntax::SyntaxNode;
use crate::text::str_eq;
use vstd::prelude::*;

verus! {

broadcast use vstd::std_specs::vec::axiom_vec_index_decreases;

/// What sort of thing a symbol of the outline is.
#[derive(Clone, Copy, Debug, PartialEq, Eq, Structural)]
pub enum SymbolKind {
    Class,
    Function,
    Method,
    Constructor,
    Property,
    Constant,
    Variable,
}

/// One entry of the outline of a document, with the entries below it.
#[derive(Debug)]
pub struct DocumentSymbol {
    pub name: String,
    /// The text of the whole declaration, where it is short enough to show.
    pub detail: Option<String>,
    pub kind: SymbolKind,
    /// Where the name stands.
    pub range: Range,
    /// Where the whole declaration stands.
    pub selection_range: Range,
    pub children: Option<Vec<DocumentSymbol>>,
}

/// An entry of the outline with its texts as sequences of characters.
pub struct SymbolView {
    pub name: Seq<char>,
    pub detail: Option<Seq<char>>,
    pub kind: SymbolKind,
    pub range: Range,
    pub selection_range: Range,
    pub children: Option<Seq<SymbolView>>,
}

/// The views of a list of entries.
pub open spec fn symbol_views(v: Vec<DocumentSymbol>) -> Seq<SymbolView>
    decreases v,
{
    Seq::new(
        v@.len(),
        |i: int|
            if 0 <= i < v@.len() {
                symbol_view(v@[i])
            } else {
                arbitrary()
            },
    )
}

/// The view of an entry.
pub open spec fn symbol_view(s: DocumentSymbol) -> SymbolView
    decreases s,
{
    SymbolView {
        name: s.name@,
        detail: match s.detail {
            Some(d) => Some(d@),
            None => None,
        },
        kind: s.kind,
        range: s.range,
        selection_range: s.selection_range,
        children: match s.children {
            Some(c) => Some(symbol_views(c)),
            None => None,
        },
    }
}

impl View for DocumentSymbol {
    type V = SymbolView;

    open spec fn view(&self) -> SymbolView {
        symbol_view(*self)
    }
}

/// The node that names the element `element` of a declaration: its first
/// child, or itself where it has none.
pub open spec fn element_name(element: SyntaxNode) -> SyntaxNode {
    match element.child_at(0) {
        Some(first) => first,
        None => element,
    }
}

/// The entry for the declaration `whole`, named by the node `name`: without
/// children, and with the text of the declaration for its detail where
/// `detailed`. No entry where a text that it needs does not lie in
/// `content`.
pub open spec fn leaf_symbol(
    name: SyntaxNode,
    whole: SyntaxNode,
    kind: SymbolKind,
    detailed: bool,
    content: Seq<char>,
) -> Option<SymbolView> {
    match name.text_in(content) {
        None => None,
        Some(text) => if detailed {
            match whole.text_in(content) {
                None => None,
                Some(all) => Some(
                    SymbolView {
                        name: text,
                        detail: Some(all),
                        kind,
                        range: range_of(name.span),
                        selection_range: range_of(whole.span),
                        children: None,
                    },
                ),
            }
        } else {
            Some(
                SymbolView {
                    name: text,
                    detail: None,
                    kind,
                    range: range_of(name.span),
                    selection_range: range_of(whole.span),
                    children: None,
                },
            )
        },
    }
}

/// Whether `i` is the first child of `node` of the kind `kind`.
pub open spec fn first_element_at(node: SyntaxNode, kind: Seq<char>, i: int) -> bool {
    &&& 0 <= i < node.children@.len()
    &&& node.children@[i].kind@ == kind
    &&& forall|j: int| 0 <= j < i ==> (#[trigger] node.children@[j]).kind@ != kind
}

/// The entry for the declaration `decl` of a property or a constant: that
/// of its first element of the kind `element`.
pub open spec fn element_symbol(
    decl: SyntaxNode,
    element: Seq<char>,
    kind: SymbolKind,
    content: Seq<char>,
) -> Option<SymbolView> {
    if exists|i: int| first_element_at(decl, element, i) {
        let i = choose|i: int| first_element_at(decl, element, i);
        leaf_symbol(element_name(decl.children@[i]), decl, kind, true, content)
    } else {
        None
    }
}

/// The entry for the parameter `param`: one for a simple parameter with a
/// name.
pub open spec fn param_symbol(param: SyntaxNode, content: Seq<char>) -> Option<SymbolView> {
    if param.kind@ == "simple_parameter"@ {
        match param.field_child("name"@) {
            Some(name) => leaf_symbol(name, param, SymbolKind::Variable, true, content),
            None => None,
        }
    } else {
        None
    }
}

/// The entries for the parameters among the first `n` children of `params`.
pub open spec fn param_symbols(params: SyntaxNode, content: Seq<char>, n: nat) -> Seq<SymbolView>
    decreases n,
{
    if n == 0 || n > params.children@.len() {
        Seq::empty()
    } else {
        let before = param_symbols(params, content, (n - 1) as nat);
        match param_symbol(params.children@[n - 1], content) {
            Some(s) => before.push(s),
            None => before,
        }
    }
}

/// The kind of a method of this name.
pub open spec fn method_kind(name: Seq<char>) -> SymbolKind {
    if name == "__constructor"@ {
        SymbolKind::Constructor
    } else {
        SymbolKind::Method
    }
}

/// The entry for the member `member` of a class: one for a property, a
/// constant, or a method with a name.
pub open spec fn member_symbol(member: SyntaxNode, content: Seq<char>) -> Option<SymbolView> {
    if member.kind@ == "property_declaration"@ {
        element_symbol(member, "property_element"@, SymbolKind::Property, content)
    } else if member.kind@ == "const_declaration"@ {
        element_symbol(member, "const_element"@, SymbolKind::Constant, content)
    } else if member.kind@ == "method_declaration"@ {
        match member.field_child("name"@) {
            Some(name) => match name.text_in(content) {
                Some(text) => leaf_symbol(name, member, method_kind(text), false, content),
                None => None,
            },
            None => None,
        }
    } else {
        None
    }
}

/// The entries for the first `n` members of the class body `body`.
pub open spec fn member_symbols(body: SyntaxNode, content: Seq<char>, n: nat) -> Seq<SymbolView>
    decreases n,
{
    if n == 0 || n > body.children@.len() {
        Seq::empty()
    } else {
        let before = member_symbols(body, content, (n - 1) as nat);
        match member_symbol(body.children@[n - 1], content) {
            Some(s) => before.push(s),
            None => before,
        }
    }
}

/// The entries for the members of the class `class`.
pub open spec fn class_symbols(class: SyntaxNode, content: Seq<char>) -> Seq<SymbolView> {
    match class.field_child("body"@) {
        Some(body) => member_symbols(body, content, body.children@.len()),
        None => Seq::empty(),
    }
}

/// The entry for the child `child` of a program: one for a class with a
/// name, with its members below it, and for a function with a name, with
/// the simple parameters among its own children below it.
pub open spec fn top_symbol(child: SyntaxNode, content: Seq<char>) -> Option<SymbolView> {
    if child.kind@ == "class_declaration"@ {
        match child.field_child("name"@) {
            Some(name) => match leaf_symbol(name, child, SymbolKind::Class, false, content) {
                Some(s) => Some(SymbolView { children: Some(class_symbols(child, content)), ..s }),
                None => None,
            },
            None => None,
        }
    } else if child.kind@ == "function_definition"@ {
        match child.field_child("name"@) {
            Some(name) => match leaf_symbol(name, child, SymbolKind::Function, false, content) {
                Some(s) => Some(
                    SymbolView {
                        children: Some(param_symbols(child, content, child.children@.len())),
                        ..s
                    },
                ),
                None => None,
            },
            None => None,
        }
    } else {
        None
    }
}

/// The entries for the first `n` children of the program `root`.
pub open spec fn top_symbols(root: SyntaxNode, content: Seq<char>, n: nat) -> Seq<SymbolView>
    decreases n,
{
    if n == 0 || n > root.children@.len() {
        Seq::empty()
    } else {
        let before = top_symbols(root, content, (n - 1) as nat);
        match top_symbol(root.children@[n - 1], content) {
            Some(s) => before.push(s),
            None => before,
        }
    }
}

/// Whether an entry, if there is one, and its view agree.
pub open spec fn symbol_is(s: Option<DocumentSymbol>, v: Option<SymbolView>) -> bool {
    match (s, v) {
        (Some(a), Some(b)) => a@ == b,
        (None, None) => true,
        _ => false,
    }
}

/// The entry for a declaration named by `name`.
fn leaf(name: &SyntaxNode, whole: &SyntaxNode, kind: SymbolKind, detailed: bool, content: &str) -> (r:
    Option<DocumentSymbol>)
    ensures
        symbol_is(r, leaf_symbol(*name, *whole, kind, detailed, content@)),
{
    let text = match name.text(content) {
        Some(t) => t,
        None => {
            return None;
        },
    };
    let detail = if detailed {
        match whole.text(content) {
            Some(all) => Some(all.to_owned()),
            None => {
                return None;
            },
        }
    } else {
        None
    };
    Some(
        DocumentSymbol {
            name: text.to_owned(),
            detail,
            kind,
            range: to_range(&name.span),
            selection_range: to_range(&whole.span),
            children: None,
        },
    )
}

/// The entry for the first element of the kind `element` in `decl`.
fn first_element(decl: &SyntaxNode, sort: &str, kind: SymbolKind, content: &str) -> (r: Option<
    DocumentSymbol,
>)
    ensures
        symbol_is(r, element_symbol(*decl, sort@, kind, content@)),
{
    let mut i: usize = 0;
    while i < decl.children.len()
        invariant
            i <= decl.children.len(),
            forall|j: int| 0 <= j < i ==> (#[trigger] decl.children@[j]).kind@ != sort@,
        decreases decl.children.len() - i,
    {
        let child = &decl.children[i];
        if child.is(sort) {
            proof {
                assert(first_element_at(*decl, sort@, i as int));
                let k = choose|k: int| first_element_at(*decl, sort@, k);
                assert(k == i) by {
                    if k < i {
                        assert(decl.children@[k].kind@ != sort@);
                    } else if i < k {
                        assert(decl.children@[i as int].kind@ != sort@);
                    }
                }
            }
            let name = match child.child(0) {
                Some(first) => first,
                None => child,
            };
            return leaf(name, decl, kind, true, content);
        }
        i += 1;
    }
    proof {
        assert forall|k: int| !first_element_at(*decl, sort@, k) by {
            if first_element_at(*decl, sort@, k) {
                assert(decl.children@[k].kind@ != sort@);
            }
        }
    }
    None
}

/// The entry for the constant that `const_node` declares.
pub fn document_symbols_const_decl(const_node: &SyntaxNode, file_contents: &str) -> (r: Option<
    DocumentSymbol,
>)
    ensures
        symbol_is(
            r,
            element_symbol(*const_node, "const_element"@, SymbolKind::Constant, file_contents@),
        ),
{
    first_element(const_node, "const_element", SymbolKind::Constant, file_contents)
}

/// The entry for the property that `property_node` declares.
pub fn document_symbols_property_decl(property_node: &SyntaxNode, file_contents: &str) -> (r:
    Option<DocumentSymbol>)
    ensures
        symbol_is(
            r,
            element_symbol(
                *property_node,
                "property_element"@,
                SymbolKind::Property,
                file_contents@,
            ),
        ),
{
    first_element(property_node, "property_element", SymbolKind::Property, file_contents)
}

/// The entries for the simple parameters among the children of `params`.
pub fn document_symbols_method_params_decl(params: &SyntaxNode, file_contents: &str) -> (symbols:
    Vec<DocumentSymbol>)
    ensures
        symbol_views(symbols) == param_symbols(*params, file_contents@, params.children@.len()),
{
    let mut symbols: Vec<DocumentSymbol> = Vec::new();
    assert(symbol_views(symbols) =~= Seq::<SymbolView>::empty());
    let mut i: usize = 0;
    while i < params.children.len()
        invariant
            i <= params.children.len(),
            symbol_views(symbols) == param_symbols(*params, file_contents@, i as nat),
        decreases params.children.len() - i,
    {
        let child = &params.children[i];
        if child.is("simple_parameter") {
            if let Some(name_node) = child.child_by_field_name("name") {
                if let Some(s) = leaf(name_node, child, SymbolKind::Variable, true, file_contents) {
                    let ghost before = symbol_views(symbols);
                    let ghost v = s@;
                    symbols.push(s);
                    assert(symbol_views(symbols) =~= before.push(v));
                }
            }
        }
        i += 1;
    }
    symbols
}

/// The entry for one member of a class.
fn member(node: &SyntaxNode, file_contents: &str) -> (r: Option<DocumentSymbol>)
    ensures
        symbol_is(r, member_symbol(*node, file_contents@)),
{
    if node.is("property_declaration") {
        document_symbols_property_decl(node, file_contents)
    } else if node.is("const_declaration") {
        document_symbols_const_decl(node, file_contents)
    } else if node.is("method_declaration") {
        match node.child_by_field_name("name") {
            Some(name_node) => match name_node.text(file_contents) {
                Some(method_name) => {
                    let kind = if str_eq(method_name, "__constructor") {
                        SymbolKind::Constructor
                    } else {
                        SymbolKind::Method
                    };
                    leaf(name_node, node, kind, false, file_contents)
                },
                None => None,
            },
            None => None,
        }
    } else {
        None
    }
}

/// The entries for the members of the class `class_node`.
pub fn document_symbols_class_decl(class_node: &SyntaxNode, file_contents: &str) -> (symbols: Vec<
    DocumentSymbol,
>)
    ensures
        symbol_views(symbols) == class_symbols(*class_node, file_contents@),
{
    let mut symbols: Vec<DocumentSymbol> = Vec::new();
    assert(symbol_views(symbols) =~= Seq::<SymbolView>::empty());
    if let Some(decl_list) = class_node.child_by_field_name("body") {
        let mut i: usize = 0;
        while i < decl_list.children.len()
            invariant
                i <= decl_list.children.len(),
                symbol_views(symbols) == member_symbols(*decl_list, file_contents@, i as nat),
            decreases decl_list.children.len() - i,
        {
            if let Some(s) = member(&decl_list.children[i], file_contents) {
                let ghost before = symbol_views(symbols);
                let ghost v = s@;
                symbols.push(s);
                assert(symbol_views(symbols) =~= before.push(v));
            }
            i += 1;
        }
    }
    symbols
}

/// The entry for one child of a program.
fn top(node: &SyntaxNode, file_contents: &str) -> (r: Option<DocumentSymbol>)
    ensures
        symbol_is(r, top_symbol(*node, file_contents@)),
{
    if node.is("class_declaration") {
        match node.child_by_field_name("name") {
            Some(name_node) => match leaf(name_node, node, SymbolKind::Class, false, file_contents) {
                Some(mut s) => {
                    s.children = Some(document_symbols_class_decl(node, file_contents));
                    Some(s)
                },
                None => None,
            },
            None => None,
        }
    } else if node.is("function_definition") {
        match node.child_by_field_name("name") {
            Some(name_node) => match leaf(
                name_node,
                node,
                SymbolKind::Function,
                false,
                file_contents,
            ) {
                Some(mut s) => {
                    s.children = Some(document_symbols_method_params_decl(node, file_contents));
                    Some(s)
                },
                None => None,
            },
            None => None,
        }
    } else {
        None
    }
}

/// The outline of a document: its classes with their properties, constants
/// and methods, and its functions.
pub fn document_symbols(root_node: &SyntaxNode, file_contents: &str) -> (ret: Vec<DocumentSymbol>)
    ensures
        symbol_views(ret) == top_symbols(*root_node, file_contents@, root_node.children@.len()),
{
    let mut ret: Vec<DocumentSymbol> = Vec::new();
    assert(symbol_views(ret) =~= Seq::<SymbolView>::empty());
    let mut i: usize = 0;
    while i < root_node.children.len()
        invariant
            i <= root_node.children.len(),
            symbol_views(ret) == top_symbols(*root_node, file_contents@, i as nat),
        decreases root_node.children.len() - i,
    {
        if let Some(s) = top(&root_node.children[i], file_contents) {
            let ghost before = symbol_views(ret);
            let ghost v = s@;
            ret.push(s);
            assert(symbol_views(ret) =~= before.push(v));
        }
        i += 1;
    }
    ret
}

} // verus!
