use crate::analyze::{
    declared_name, imports_of, use_clauses, walk_ns_use_declaration, Imports,
};
use crate::diagnostics::Diagnostic;
use crate::php_namespace::{segments_of, PhpNamespace, SegmentPool};
use crate::scope::Scope;
use crate::syntax::SyntaxNode;
use crate::text::{ends_with, starts_with};
use crate::types::{
    blank_class, method_of, namespace_views, property_of, Class, ClassView, CustomType,
    CustomTypeMeta, CustomTypeMetaView, CustomTypeView, CustomTypesDatabase, FromNode, Method,
    Property,
};
use std::sync::Arc;
use vstd::prelude::*;

verus! {

/// The names that a clause has been resolved to so far, and the segments
/// that were interned on the way.
pub struct Resolved {
    pub names: Seq<Seq<Seq<char>>>,
    pub pool: Set<Seq<char>>,
}

/// The namespace that relative names are counted from.
pub open spec fn base_namespace(ns: Option<Seq<Seq<char>>>) -> Seq<Seq<char>> {
    match ns {
        Some(n) => n,
        None => Seq::empty(),
    }
}

/// `ns` without its last segment, where it has one.
pub open spec fn without_last(ns: Seq<Seq<char>>) -> Seq<Seq<char>> {
    if ns.len() > 0 {
        ns.drop_last()
    } else {
        ns
    }
}

/// What the child `child` of a clause adds to `r`. A plain name stands for
/// the namespace of the alias of that name, else it is counted from the
/// current namespace. A qualified name that begins with a backslash is taken
/// as it stands; any other is counted from the namespace of the alias that
/// its first segment names, without that namespace's last segment, else from
/// the current namespace. Qualified names are interned.
pub open spec fn resolve_name(
    child: SyntaxNode,
    content: Seq<char>,
    ns: Option<Seq<Seq<char>>>,
    aliases: Map<Seq<char>, Seq<Seq<char>>>,
    r: Resolved,
) -> Resolved {
    if !"name"@.is_suffix_of(child.kind@) {
        r
    } else {
        match child.text_in(content) {
            None => r,
            Some(name) => if child.kind@ == "name"@ {
                if aliases.contains_key(name) {
                    Resolved { names: r.names.push(aliases[name]), pool: r.pool }
                } else {
                    Resolved { names: r.names.push(base_namespace(ns).push(name)), pool: r.pool }
                }
            } else if child.kind@ == "qualified_name"@ {
                let rel = segments_of(name);
                let pool = r.pool.union(rel.to_set());
                if "\\"@.is_prefix_of(name) {
                    Resolved { names: r.names.push(rel), pool }
                } else if rel.len() > 0 {
                    if aliases.contains_key(rel[0]) {
                        Resolved { names: r.names.push(without_last(aliases[rel[0]]) + rel), pool }
                    } else {
                        Resolved { names: r.names.push(base_namespace(ns) + rel), pool }
                    }
                } else {
                    Resolved { names: r.names, pool }
                }
            } else {
                r
            },
        }
    }
}

/// What the first `n` children of the clause `node` resolve to.
pub open spec fn resolved(
    node: SyntaxNode,
    content: Seq<char>,
    ns: Option<Seq<Seq<char>>>,
    aliases: Map<Seq<char>, Seq<Seq<char>>>,
    pool: Set<Seq<char>>,
    n: nat,
) -> Resolved
    decreases n,
{
    if n == 0 || n > node.children@.len() {
        Resolved { names: Seq::empty(), pool }
    } else {
        resolve_name(
            node.children@[n - 1],
            content,
            ns,
            aliases,
            resolved(node, content, ns, aliases, pool, (n - 1) as nat),
        )
    }
}

/// The fully qualified names that the names among the children of `node`
/// stand for, as `scope` resolves them.
pub fn clause_fqn_names(
    node: &SyntaxNode,
    content: &str,
    scope: &Scope,
    ns_store: &mut SegmentPool,
) -> (names: Vec<PhpNamespace>)
    ensures
        namespace_views(names@) == resolved(
            *node,
            content@,
            scope.namespace(),
            scope.aliases(),
            old(ns_store)@,
            node.children@.len(),
        ).names,
        final(ns_store)@ == resolved(
            *node,
            content@,
            scope.namespace(),
            scope.aliases(),
            old(ns_store)@,
            node.children@.len(),
        ).pool,
{
    let mut names: Vec<PhpNamespace> = Vec::new();
    let ghost pool0 = ns_store@;
    let ghost ns = scope.namespace();
    let ghost aliases = scope.aliases();
    assert(namespace_views(names@) =~= Seq::<Seq<Seq<char>>>::empty());
    let mut i: usize = 0;
    while i < node.children.len()
        invariant
            i <= node.children.len(),
            ns == scope.namespace(),
            aliases == scope.aliases(),
            namespace_views(names@) == resolved(*node, content@, ns, aliases, pool0, i as nat).names,
            ns_store@ == resolved(*node, content@, ns, aliases, pool0, i as nat).pool,
        decreases node.children.len() - i,
    {
        let child = &node.children[i];
        let ghost before = namespace_views(names@);
        if ends_with(child.kind.as_str(), "name") {
            if let Some(name) = child.text(content) {
                if child.is("name") {
                    let found = match scope.ns_aliases.get(name) {
                        Some(ns) => ns.clone(),
                        None => {
                            let mut ns = match &scope.ns {
                                Some(ns) => ns.clone(),
                                None => PhpNamespace::empty(),
                            };
                            ns.push(Arc::new(name.to_owned()));
                            ns
                        },
                    };
                    let ghost f = found@;
                    names.push(found);
                    assert(namespace_views(names@) =~= before.push(f));
                } else if child.is("qualified_name") {
                    let relative_ns = ns_store.intern_str(name);
                    let ghost rel = relative_ns@;
                    if starts_with(name, "\\") {
                        names.push(relative_ns);
                        assert(namespace_views(names@) =~= before.push(rel));
                    } else if relative_ns.len() > 0 {
                        let found = match scope.ns_aliases.get(relative_ns.0[0].as_str()) {
                            Some(ns) => {
                                let mut ns = ns.clone();
                                ns.pop();
                                ns.extend(relative_ns.0);
                                ns
                            },
                            None => {
                                let mut ns = match &scope.ns {
                                    Some(ns) => ns.clone(),
                                    None => PhpNamespace::empty(),
                                };
                                ns.extend(relative_ns.0);
                                ns
                            },
                        };
                        let ghost f = found@;
                        names.push(found);
                        assert(namespace_views(names@) =~= before.push(f));
                    }
                }
            }
        }
        i += 1;
    }
    names
}


/// What the walk over one class declaration has gathered so far: the class,
/// the names it depends on, and the interned segments.
pub struct Extraction {
    pub class: ClassView,
    pub deps: Seq<Seq<Seq<char>>>,
    pub pool: Set<Seq<char>>,
}

/// What the member `child` of a class body adds to `e`: a property or a
/// method that could be read is recorded under its name; the traits that a
/// `use` declaration names are recorded and depended on.
pub open spec fn member_step(
    child: SyntaxNode,
    content: Seq<char>,
    ns: Option<Seq<Seq<char>>>,
    aliases: Map<Seq<char>, Seq<Seq<char>>>,
    e: Extraction,
) -> Extraction {
    if child.kind@ == "property_declaration"@ {
        match property_of(child, content) {
            Ok(p) => Extraction {
                class: ClassView { properties: e.class.properties.insert(p.name, p), ..e.class },
                ..e
            },
            Err(_) => e,
        }
    } else if child.kind@ == "method_declaration"@ {
        match method_of(child, content) {
            Ok(m) => Extraction {
                class: ClassView { methods: e.class.methods.insert(m.name, m), ..e.class },
                ..e
            },
            Err(_) => e,
        }
    } else if child.kind@ == "use_declaration"@ {
        let r = resolved(child, content, ns, aliases, e.pool, child.children@.len());
        Extraction {
            class: ClassView { traits_used: e.class.traits_used + r.names, ..e.class },
            deps: e.deps + r.names,
            pool: r.pool,
        }
    } else {
        e
    }
}

/// What the first `n` members of the class body `body` add to `e`.
pub open spec fn members_of(
    body: SyntaxNode,
    content: Seq<char>,
    ns: Option<Seq<Seq<char>>>,
    aliases: Map<Seq<char>, Seq<Seq<char>>>,
    e: Extraction,
    n: nat,
) -> Extraction
    decreases n,
{
    if n == 0 || n > body.children@.len() {
        e
    } else {
        member_step(
            body.children@[n - 1],
            content,
            ns,
            aliases,
            members_of(body, content, ns, aliases, e, (n - 1) as nat),
        )
    }
}

/// What the child `child` of a class declaration adds to `e`: the names of
/// an `extends` clause are parents, those of an `implements` clause are
/// interfaces, and both are depended on. Any other child is passed over.
pub open spec fn clause_step(
    child: SyntaxNode,
    content: Seq<char>,
    ns: Option<Seq<Seq<char>>>,
    aliases: Map<Seq<char>, Seq<Seq<char>>>,
    e: Extraction,
) -> Extraction {
    if child.kind@ == "base_clause"@ {
        let r = resolved(child, content, ns, aliases, e.pool, child.children@.len());
        Extraction {
            class: ClassView { parent_classes: e.class.parent_classes + r.names, ..e.class },
            deps: e.deps + r.names,
            pool: r.pool,
        }
    } else if child.kind@ == "class_interface_clause"@ {
        let r = resolved(child, content, ns, aliases, e.pool, child.children@.len());
        Extraction {
            class: ClassView {
                implemented_interfaces: e.class.implemented_interfaces + r.names,
                ..e.class
            },
            deps: e.deps + r.names,
            pool: r.pool,
        }
    } else {
        e
    }
}

/// What the first `n` children of the class declaration `node` add to `e`.
pub open spec fn clauses_of(
    node: SyntaxNode,
    content: Seq<char>,
    ns: Option<Seq<Seq<char>>>,
    aliases: Map<Seq<char>, Seq<Seq<char>>>,
    e: Extraction,
    n: nat,
) -> Extraction
    decreases n,
{
    if n == 0 || n > node.children@.len() {
        e
    } else {
        clause_step(
            node.children@[n - 1],
            content,
            ns,
            aliases,
            clauses_of(node, content, ns, aliases, e, (n - 1) as nat),
        )
    }
}

/// The name that the class declaration `node` gives; empty without one.
pub open spec fn class_name(node: SyntaxNode, content: Seq<char>) -> Seq<char> {
    match declared_name(node, content) {
        Some(name) => name,
        None => Seq::empty(),
    }
}

/// Everything that the class declaration `node` yields, given the
/// dependencies and the interned segments before it. A declaration without
/// a name yields nothing: no member is read and no name is resolved.
pub open spec fn class_extraction(
    node: SyntaxNode,
    content: Seq<char>,
    ns: Option<Seq<Seq<char>>>,
    aliases: Map<Seq<char>, Seq<Seq<char>>>,
    deps: Seq<Seq<Seq<char>>>,
    pool: Set<Seq<char>>,
) -> Extraction {
    let start = Extraction {
        class: ClassView { name: class_name(node, content), ..blank_class() },
        deps,
        pool,
    };
    let with_members = match node.field_child("body"@) {
        Some(body) => if body.kind@ == "declaration_list"@ {
            members_of(body, content, ns, aliases, start, body.children@.len())
        } else {
            start
        },
        None => start,
    };
    if class_name(node, content).len() == 0 {
        start
    } else {
        clauses_of(node, content, ns, aliases, with_members, node.children@.len())
    }
}

/// The documentation that stands before a declaration: the text of the
/// node `prev` before it, where that is a comment that begins with `/**`.
pub open spec fn markup_of(prev: Option<SyntaxNode>, content: Seq<char>) -> Option<Seq<char>> {
    match prev {
        Some(p) => if p.kind@ == "comment"@ {
            match p.text_in(content) {
                Some(text) => if "/**"@.is_prefix_of(text) {
                    Some(text)
                } else {
                    None
                },
                None => None,
            }
        } else {
            None
        },
        None => None,
    }
}

/// The database after the class that `e` describes was declared at `node`:
/// a class with a name is recorded under the current namespace and its
/// name, in place of what was there; one without is not recorded.
pub open spec fn recorded(
    before: Map<Seq<Seq<char>>, CustomTypeMetaView>,
    node: SyntaxNode,
    ns: Option<Seq<Seq<char>>>,
    class: ClassView,
    markup: Option<Seq<char>>,
) -> Map<Seq<Seq<char>>, CustomTypeMetaView> {
    if class.name.len() > 0 {
        before.insert(
            base_namespace(ns).push(class.name),
            CustomTypeMetaView { t: CustomTypeView::Class(class), markup, src_range: node.span },
        )
    } else {
        before
    }
}

/// The documentation that stands before a declaration.
pub fn node_markup(prev: Option<&SyntaxNode>, content: &str) -> (markup: Option<String>)
    ensures
        match markup {
            Some(m) => markup_of(
                match prev {
                    Some(p) => Some(*p),
                    None => None,
                },
                content@,
            ) == Some(m@),
            None => markup_of(
                match prev {
                    Some(p) => Some(*p),
                    None => None,
                },
                content@,
            ) is None,
        },
{
    if let Some(prev) = prev {
        if prev.is("comment") {
            if let Some(comment) = prev.text(content) {
                if starts_with(comment, "/**") {
                    return Some(comment.to_owned());
                }
            }
        }
    }
    None
}

/// Appends a copy of each of `names` to `list`.
fn extend_names(list: &mut Vec<PhpNamespace>, names: &Vec<PhpNamespace>)
    ensures
        namespace_views(final(list)@) == namespace_views(old(list)@) + namespace_views(names@),
{
    let ghost start = namespace_views(list@);
    let mut i: usize = 0;
    assert(namespace_views(list@) =~= start + namespace_views(names@).take(0));
    while i < names.len()
        invariant
            i <= names.len(),
            namespace_views(list@) == start + namespace_views(names@).take(i as int),
        decreases names.len() - i,
    {
        let ghost before = namespace_views(list@);
        list.push(names[i].clone());
        assert(namespace_views(list@) =~= before.push(names@[i as int]@));
        assert(namespace_views(list@) =~= start + namespace_views(names@).take(i as int + 1));
        i += 1;
    }
    assert(namespace_views(names@).take(names.len() as int) =~= namespace_views(names@));
}

/// Whether a class, a list of dependencies and a pool stand for `e`.
pub open spec fn extracted(
    t: Class,
    dependencies: Seq<PhpNamespace>,
    pool: SegmentPool,
    e: Extraction,
) -> bool {
    &&& t@ == e.class
    &&& namespace_views(dependencies) == e.deps
    &&& pool@ == e.pool
}

/// Records the class that `node` declares in `types`, under the current
/// namespace of `scope` and its name, and adds to `dependencies` the
/// parents, interfaces and traits that it names. `prev` is the node that
/// stands before the declaration.
pub fn injest_class_declaration(
    node: &SyntaxNode,
    prev: Option<&SyntaxNode>,
    content: &str,
    scope: &Scope,
    ns_store: &mut SegmentPool,
    types: &mut CustomTypesDatabase,
    dependencies: &mut Vec<PhpNamespace>,
)
    ensures
        ({
            let e = class_extraction(
                *node,
                content@,
                scope.namespace(),
                scope.aliases(),
                namespace_views(old(dependencies)@),
                old(ns_store)@,
            );
            &&& namespace_views(final(dependencies)@) == e.deps
            &&& final(ns_store)@ == e.pool
            &&& final(types).records() == recorded(
                old(types).records(),
                *node,
                scope.namespace(),
                e.class,
                markup_of(
                    match prev {
                        Some(p) => Some(*p),
                        None => None,
                    },
                    content@,
                ),
            )
        }),
{
    let ghost ns = scope.namespace();
    let ghost aliases = scope.aliases();
    let ghost deps0 = namespace_views(dependencies@);
    let ghost pool0 = ns_store@;
    let mut t = Class::default();
    let markup = node_markup(prev, content);

    if let Some(name) = node.child_by_field_name("name") {
        if let Some(text) = name.text(content) {
            t.name = text.to_owned();
        }
    }
    let ghost start = Extraction {
        class: ClassView { name: class_name(*node, content@), ..blank_class() },
        deps: deps0,
        pool: pool0,
    };
    assert(t@ == start.class);
    if t.name.as_str().is_empty() {
        return;
    }

    if let Some(body) = node.child_by_field_name("body") {
        if body.is("declaration_list") {
            let mut i: usize = 0;
            while i < body.children.len()
                invariant
                    i <= body.children.len(),
                    ns == scope.namespace(),
                    aliases == scope.aliases(),
                    t.name@ == class_name(*node, content@),
                    extracted(
                        t,
                        dependencies@,
                        *ns_store,
                        members_of(*body, content@, ns, aliases, start, i as nat),
                    ),
                decreases body.children.len() - i,
            {
                let child = &body.children[i];
                let ghost e = members_of(*body, content@, ns, aliases, start, i as nat);
                if child.is("property_declaration") {
                    if let Ok(property) = Property::from_node(child, content) {
                        let ghost pv = property@;
                        t.properties.insert(property.name.clone(), property);
                        assert(t@.properties =~= e.class.properties.insert(pv.name, pv));
                    }
                } else if child.is("method_declaration") {
                    if let Ok(method) = Method::from_node(child, content) {
                        let ghost mv = method@;
                        t.methods.insert(method.name.clone(), method);
                        assert(t@.methods =~= e.class.methods.insert(mv.name, mv));
                    }
                } else if child.is("use_declaration") {
                    let trait_names = clause_fqn_names(child, content, scope, ns_store);
                    extend_names(&mut t.traits_used, &trait_names);
                    extend_names(dependencies, &trait_names);
                }
                assert(extracted(
                    t,
                    dependencies@,
                    *ns_store,
                    member_step(*child, content@, ns, aliases, e),
                ));
                i += 1;
            }
        }
    }
    let ghost with_members = match node.field_child("body"@) {
        Some(body) => if body.kind@ == "declaration_list"@ {
            members_of(body, content@, ns, aliases, start, body.children@.len())
        } else {
            start
        },
        None => start,
    };
    assert(extracted(t, dependencies@, *ns_store, with_members));

    let mut i: usize = 0;
    while i < node.children.len()
        invariant
            i <= node.children.len(),
            ns == scope.namespace(),
            aliases == scope.aliases(),
            t.name@ == class_name(*node, content@),
            extracted(
                t,
                dependencies@,
                *ns_store,
                clauses_of(*node, content@, ns, aliases, with_members, i as nat),
            ),
            *types == *old(types),
        decreases node.children.len() - i,
    {
        let child = &node.children[i];
        let ghost e = clauses_of(*node, content@, ns, aliases, with_members, i as nat);
        if child.is("base_clause") {
            let names = clause_fqn_names(child, content, scope, ns_store);
            extend_names(&mut t.parent_classes, &names);
            extend_names(dependencies, &names);
        } else if child.is("class_interface_clause") {
            let names = clause_fqn_names(child, content, scope, ns_store);
            extend_names(&mut t.implemented_interfaces, &names);
            extend_names(dependencies, &names);
        }
        assert(extracted(t, dependencies@, *ns_store, clause_step(*child, content@, ns, aliases, e)));
        i += 1;
    }

    let mut key = match &scope.ns {
        Some(ns) => ns.clone(),
        None => PhpNamespace::empty(),
    };
    key.push(Arc::new(t.name.clone()));
    let ghost before = types.records();
    let ghost k = key@;
    let meta = CustomTypeMeta { t: CustomType::Class(t), markup, src_range: node.span };
    let ghost mv = meta@;
    types.0.insert(key, meta);
    assert(types.records() =~= before.insert(k, mv));
}

/// Recording a class a second time leaves the database as the first time
/// left it.
pub proof fn lemma_recording_again_changes_nothing(
    before: Map<Seq<Seq<char>>, CustomTypeMetaView>,
    node: SyntaxNode,
    ns: Option<Seq<Seq<char>>>,
    class: ClassView,
    markup: Option<Seq<char>>,
)
    ensures
        recorded(recorded(before, node, ns, class, markup), node, ns, class, markup) == recorded(
            before,
            node,
            ns,
            class,
            markup,
        ),
{
    assert(recorded(recorded(before, node, ns, class, markup), node, ns, class, markup)
        =~= recorded(before, node, ns, class, markup));
}

/// Everything that the harvest of a file keeps: the namespace, the aliases,
/// the interned segments, the database and the dependencies.
pub struct Harvest {
    pub ns: Option<Seq<Seq<char>>>,
    pub aliases: Map<Seq<char>, Seq<Seq<char>>>,
    pub pool: Set<Seq<char>>,
    pub records: Map<Seq<Seq<char>>, CustomTypeMetaView>,
    pub deps: Seq<Seq<Seq<char>>>,
}

/// The node before the child at place `i` of `node`.
pub open spec fn child_before(node: SyntaxNode, i: int) -> Option<SyntaxNode> {
    if 0 < i <= node.children@.len() {
        Some(node.children@[i - 1])
    } else {
        None
    }
}

/// The harvest after the child at place `i` of the program `node`, which
/// was `h` before it: a namespace definition sets the namespace, a `use`
/// declaration adds aliases, a class is recorded, and the rest is passed
/// over.
pub open spec fn harvest_step(node: SyntaxNode, i: int, content: Seq<char>, h: Harvest) -> Harvest {
    let child = node.children@[i];
    if child.kind@ == "php_tag"@ {
        h
    } else if child.kind@ == "namespace_definition"@ {
        match declared_name(child, content) {
            Some(text) => Harvest {
                ns: Some(segments_of(text)),
                pool: h.pool.union(segments_of(text).to_set()),
                ..h
            },
            None => h,
        }
    } else if child.kind@ == "namespace_use_declaration"@ {
        let u = use_clauses(
            child,
            content,
            Imports { aliases: h.aliases, pool: h.pool, diags: Seq::empty() },
            child.children@.len(),
        );
        Harvest { aliases: u.aliases, pool: u.pool, ..h }
    } else if child.kind@ == "class_declaration"@ {
        let e = class_extraction(child, content, h.ns, h.aliases, h.deps, h.pool);
        Harvest {
            pool: e.pool,
            deps: e.deps,
            records: recorded(
                h.records,
                child,
                h.ns,
                e.class,
                markup_of(child_before(node, i), content),
            ),
            ..h
        }
    } else {
        h
    }
}

/// The harvest after the first `n` children of the program `node`.
pub open spec fn harvest_upto(
    node: SyntaxNode,
    content: Seq<char>,
    pool: Set<Seq<char>>,
    records: Map<Seq<Seq<char>>, CustomTypeMetaView>,
    n: nat,
) -> Harvest
    decreases n,
{
    if n == 0 || n > node.children@.len() {
        Harvest { ns: None, aliases: Map::empty(), pool, records, deps: Seq::empty() }
    } else {
        harvest_step(node, n - 1, content, harvest_upto(node, content, pool, records, (n - 1) as nat))
    }
}

/// The harvest of the whole tree `node`; only a program is harvested.
pub open spec fn harvest(
    node: SyntaxNode,
    content: Seq<char>,
    pool: Set<Seq<char>>,
    records: Map<Seq<Seq<char>>, CustomTypeMetaView>,
) -> Harvest {
    harvest_upto(
        node,
        content,
        pool,
        records,
        if node.kind@ == "program"@ {
            node.children@.len()
        } else {
            0
        },
    )
}

/// Records the classes that a file declares in `types` and returns the
/// names that they depend on, for the caller to look up.
pub fn injest_types(
    node: &SyntaxNode,
    content: &str,
    ns_store: &mut SegmentPool,
    types: &mut CustomTypesDatabase,
) -> (dependencies: Vec<PhpNamespace>)
    ensures
        ({
            let h = harvest(*node, content@, old(ns_store)@, old(types).records());
            &&& namespace_views(dependencies@) == h.deps
            &&& final(ns_store)@ == h.pool
            &&& final(types).records() == h.records
        }),
{
    let mut dependencies: Vec<PhpNamespace> = Vec::new();
    assert(namespace_views(dependencies@) =~= Seq::<Seq<Seq<char>>>::empty());
    let ghost pool0 = ns_store@;
    let ghost records0 = types.records();
    if node.is("program") {
        let mut scope = Scope::empty();
        let mut i: usize = 0;
        while i < node.children.len()
            invariant
                i <= node.children.len(),
                ({
                    let h = harvest_upto(*node, content@, pool0, records0, i as nat);
                    &&& scope.namespace() == h.ns
                    &&& scope.aliases() == h.aliases
                    &&& ns_store@ == h.pool
                    &&& types.records() == h.records
                    &&& namespace_views(dependencies@) == h.deps
                }),
            decreases node.children.len() - i,
        {
            let child = &node.children[i];
            let ghost h = harvest_upto(*node, content@, pool0, records0, i as nat);
            if child.is("php_tag") {
            } else if child.is("namespace_definition") {
                if let Some(name) = child.child_by_field_name("name") {
                    if let Some(text) = name.text(content) {
                        let ns = ns_store.intern_str(text);
                        scope.ns = Some(ns);
                    }
                }
            } else if child.is("namespace_use_declaration") {
                let mut unheard: Vec<Diagnostic> = Vec::new();
                proof {
                    crate::analyze::lemma_use_clauses_whatever_reported(
                        *child,
                        content@,
                        imports_of(scope, *ns_store, unheard@),
                        Imports { aliases: h.aliases, pool: h.pool, diags: Seq::empty() },
                        child.children@.len(),
                    );
                }
                walk_ns_use_declaration(child, content, ns_store, &mut scope, &mut unheard);
            } else if child.is("class_declaration") {
                let prev = if i > 0 {
                    Some(&node.children[i - 1])
                } else {
                    None
                };
                injest_class_declaration(
                    child,
                    prev,
                    content,
                    &scope,
                    ns_store,
                    types,
                    &mut dependencies,
                );
            }
            proof {
                let next = harvest_step(*node, i as int, content@, h);
                assert(scope.namespace() == next.ns);
                assert(scope.aliases() == next.aliases);
                assert(ns_store@ == next.pool);
                assert(types.records() == next.records);
                assert(namespace_views(dependencies@) == next.deps);
            }
            i += 1;
        }
    }
    dependencies
}

} // verus!
