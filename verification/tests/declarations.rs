use phplsp::declarations::{clause_fqn_names, injest_types};
use phplsp::php_namespace::SegmentPool;
use phplsp::scope::Scope;
use phplsp::syntax::{lower_tree, SyntaxNode};
use phplsp::types::{
    CustomType, CustomTypesDatabase, FromNode, Method, Nullable, Property, Scalar, Type,
    TypeError, Visibility,
};

fn parse_source(src: &str) -> SyntaxNode {
    let mut parser = tree_sitter::Parser::new();
    parser
        .set_language(&tree_sitter_php::LANGUAGE_PHP.into())
        .expect("error loading PHP grammar");
    let tree = parser.parse(src, None).unwrap();
    lower_tree(&tree).unwrap()
}

fn find<'a>(node: &'a SyntaxNode, kind: &str) -> Option<&'a SyntaxNode> {
    if node.kind == kind {
        return Some(node);
    }
    for child in node.children.iter() {
        if let Some(found) = find(child, kind) {
            return Some(found);
        }
    }
    None
}

#[test]
fn class_decl_in_types_db() {
    let src = "<?php
        namespace Foo\\Bar;

        /**
         * hello world
         */
        class Baz {
            protected static ?array $someArray = null;
            public static function bar(): string {}
        }
        ";
    let root = parse_source(src);
    let mut types = CustomTypesDatabase::new();
    let mut pool = SegmentPool::new();
    let deps = injest_types(&root, src, &mut pool, &mut types);
    assert!(deps.is_empty(), "src = {}\ndeps = {:?}", src, deps);
    assert_eq!(types.0.len(), 1);

    let query = pool.intern_str("Foo\\Bar\\Baz");
    let meta = types.0.get(&query).unwrap();
    let c = match &meta.t {
        CustomType::Class(c) => c,
        _ => unreachable!("type should only be a class"),
    };
    assert_eq!(&c.name, "Baz");
    assert!(meta.markup.as_ref().unwrap().contains("hello world"));
    let m = c.methods.get("bar").unwrap();
    assert_eq!(&m.name, "bar");
    assert_eq!(m.return_type, Type::Scalar(Scalar::String));
    assert_eq!(m.is_abstract, false);
    assert_eq!(m.is_static, true);
    assert_eq!(m.visibility, Visibility::Public);
    let p = c.properties.get("$someArray").unwrap();
    assert_eq!(p.t, Type::Nullable(Nullable(Box::new(Type::Array))));
}

#[test]
fn class_decl_extends_with_ns() {
    let src = "<?php
        namespace Foo\\Bar;

        use Foo\\Pa;
        use Foo\\Sa\\Trait1;
        use Foo\\Sa\\Trait2;

        class Baz extends Ta, \\Foo\\Da {
            use Trait1, Pa\\Trait2;
        }
        ";
    let root = parse_source(src);
    let mut types = CustomTypesDatabase::new();
    let mut pool = SegmentPool::new();
    let deps = injest_types(&root, src, &mut pool, &mut types);

    let baz = types.0.get(&pool.intern_str("Foo\\Bar\\Baz")).unwrap();
    let baz_t = match &baz.t {
        CustomType::Class(c) => c,
        _ => unreachable!(),
    };

    assert!(baz_t
        .parent_classes
        .contains(&pool.intern_str("Foo\\Bar\\Ta")));
    assert!(baz_t.parent_classes.contains(&pool.intern_str("Foo\\Da")));
    assert!(baz_t
        .traits_used
        .contains(&pool.intern_str("Foo\\Sa\\Trait1")));
    assert!(baz_t
        .traits_used
        .contains(&pool.intern_str("Foo\\Pa\\Trait2")));

    assert_eq!(deps.len(), 4);
    assert!(deps.contains(&pool.intern_str("Foo\\Bar\\Ta")));
    assert!(deps.contains(&pool.intern_str("Foo\\Da")));
    assert!(deps.contains(&pool.intern_str("Foo\\Sa\\Trait1")));
    assert!(deps.contains(&pool.intern_str("Foo\\Pa\\Trait2")));
}

#[test]
fn class_dependency_extraction() {
    let src = "<?php namespace Foo\\Bar; use Foo\\Sa\\Trait1; class Baz extends Ta { use Trait1; }";
    let root = parse_source(src);
    let mut types = CustomTypesDatabase::new();
    let mut pool = SegmentPool::new();
    let deps = injest_types(&root, src, &mut pool, &mut types);
    assert!(types.0.get(&pool.intern_str("Foo\\Bar\\Baz")).is_some());
    assert_eq!(types.0.len(), 1);
    assert_eq!(
        deps,
        vec![pool.intern_str("Foo\\Sa\\Trait1"), pool.intern_str("Foo\\Bar\\Ta")]
    );
}

#[test]
fn class_without_namespace_is_keyed_by_its_name() {
    let src = "<?php class Lone {}";
    let root = parse_source(src);
    let mut types = CustomTypesDatabase::new();
    let mut pool = SegmentPool::new();
    let deps = injest_types(&root, src, &mut pool, &mut types);
    assert!(deps.is_empty());
    assert_eq!(types.0.len(), 1);
    let meta = types.0.get(&pool.intern_str("Lone")).unwrap();
    assert!(meta.markup.is_none());
    let class = find(&root, "class_declaration").unwrap();
    assert_eq!(meta.src_range, class.span);
}

#[test]
fn declaring_a_class_again_overwrites() {
    let first = "<?php namespace N; class C { public int $a = 1; }";
    let second = "<?php namespace N; class C { public int $b = 1; }";
    let mut types = CustomTypesDatabase::new();
    let mut pool = SegmentPool::new();
    injest_types(&parse_source(first), first, &mut pool, &mut types);
    injest_types(&parse_source(second), second, &mut pool, &mut types);
    injest_types(&parse_source(second), second, &mut pool, &mut types);
    assert_eq!(types.0.len(), 1);
    let meta = types.0.get(&pool.intern_str("N\\C")).unwrap();
    match &meta.t {
        CustomType::Class(c) => {
            assert!(c.properties.get("$a").is_none());
            assert!(c.properties.get("$b").is_some());
        }
        _ => unreachable!(),
    }
}

#[test]
fn only_a_program_is_harvested() {
    let src = "<?php namespace N; class C {}";
    let root = parse_source(src);
    let class = find(&root, "class_declaration").unwrap();
    let mut types = CustomTypesDatabase::new();
    let mut pool = SegmentPool::new();
    let deps = injest_types(class, src, &mut pool, &mut types);
    assert!(deps.is_empty());
    assert_eq!(types.0.len(), 0);
    assert_eq!(pool.0.len(), 0);
}

#[test]
fn names_in_a_clause_resolve_through_aliases_and_namespace() {
    let src = "<?php class Baz implements One, Two\\Three, \\Four\\Five, Al\\Six {}";
    let root = parse_source(src);
    let clause = find(&root, "class_interface_clause").unwrap();
    let mut pool = SegmentPool::new();
    let mut scope = Scope::empty();
    scope.ns = Some(pool.intern_str("Cur\\Rent"));
    scope.ns_aliases.insert("One".to_string(), pool.intern_str("Else\\Where\\One"));
    scope.ns_aliases.insert("Al".to_string(), pool.intern_str("Far\\Al"));
    let names = clause_fqn_names(clause, src, &scope, &mut pool);
    assert_eq!(
        names,
        vec![
            pool.intern_str("Else\\Where\\One"),
            pool.intern_str("Cur\\Rent\\Two\\Three"),
            pool.intern_str("Four\\Five"),
            pool.intern_str("Far\\Al\\Six"),
        ]
    );
    assert!(pool.0.contains("Three"));
    assert!(pool.0.contains("Six"));
}

#[test]
fn property_and_method_are_read_off_their_declarations() {
    let src = "<?php class A {
        private static int $count = 0;
        protected ?string $label;
        abstract protected function run(): void;
        function plain() {}
        public function odd(): Foo {}
    }";
    let root = parse_source(src);
    let class = find(&root, "class_declaration").unwrap();
    let body = class.child_by_field_name("body").unwrap();
    let members: Vec<&SyntaxNode> = body
        .children
        .iter()
        .filter(|c| c.kind == "property_declaration" || c.kind == "method_declaration")
        .collect();
    assert_eq!(members.len(), 5);

    let count = Property::from_node(members[0], src).unwrap();
    assert_eq!(count.name, "$count");
    assert_eq!(count.t, Type::Scalar(Scalar::Integer));
    assert_eq!(count.visibility, Visibility::Private);
    assert!(count.is_static);

    let label = Property::from_node(members[1], src).unwrap();
    assert_eq!(label.name, "$label");
    assert_eq!(
        label.t,
        Type::Nullable(Nullable(Box::new(Type::Scalar(Scalar::String))))
    );
    assert_eq!(label.visibility, Visibility::Protected);
    assert!(!label.is_static);

    let run = Method::from_node(members[2], src).unwrap();
    assert_eq!(run.name, "run");
    assert_eq!(run.return_type, Type::Void);
    assert_eq!(run.visibility, Visibility::Protected);
    assert!(run.is_abstract);
    assert!(!run.is_static);
    assert!(run.arguments.is_empty());

    let plain = Method::from_node(members[3], src).unwrap();
    assert_eq!(plain.name, "plain");
    assert_eq!(plain.return_type, Type::Void);
    assert_eq!(plain.visibility, Visibility::Public);

    let odd = Method::from_node(members[4], src).unwrap();
    assert_eq!(odd.return_type, Type::Void);
}

#[test]
fn unreadable_members_give_errors() {
    let src = "<?php class A { public $untyped; public Foo $named; public function f(): int {} }";
    let root = parse_source(src);
    let class = find(&root, "class_declaration").unwrap();
    let body = class.child_by_field_name("body").unwrap();
    let members: Vec<&SyntaxNode> = body
        .children
        .iter()
        .filter(|c| c.kind == "property_declaration" || c.kind == "method_declaration")
        .collect();
    assert!(matches!(
        Property::from_node(members[0], src),
        Err(TypeError::ExpectedType)
    ));
    match Property::from_node(members[1], src) {
        Err(TypeError::UnsupportedType(kind)) => assert_eq!(kind, "named_type"),
        other => panic!("{:?}", other),
    }
    assert!(matches!(
        Property::from_node(members[2], src),
        Err(TypeError::ExpectedType)
    ));
    assert!(matches!(Method::from_node(members[0], src), Err(TypeError::NoName)));

    let mut types = CustomTypesDatabase::new();
    let mut pool = SegmentPool::new();
    injest_types(&root, src, &mut pool, &mut types);
    match &types.0.get(&pool.intern_str("A")).unwrap().t {
        CustomType::Class(c) => {
            assert_eq!(c.properties.len(), 0);
            assert_eq!(c.methods.len(), 1);
        }
        _ => unreachable!(),
    }
}

#[test]
fn types_are_read_off_type_nodes() {
    let cases = [
        ("int", Type::Scalar(Scalar::Integer)),
        ("string", Type::Scalar(Scalar::String)),
        ("bool", Type::Scalar(Scalar::Boolean)),
        ("float", Type::Scalar(Scalar::Float)),
        ("array", Type::Array),
        ("false", Type::Scalar(Scalar::BooleanLiteral(false))),
        ("true", Type::Scalar(Scalar::BooleanLiteral(true))),
        ("null", Type::Scalar(Scalar::Null)),
        ("?int", Type::Nullable(Nullable(Box::new(Type::Scalar(Scalar::Integer))))),
    ];
    for (text, expected) in cases {
        let src = format!("<?php class A {{ public {} $x; }}", text);
        let root = parse_source(&src);
        let decl = find(&root, "property_declaration").unwrap();
        let node = decl.child_by_field_name("type").unwrap();
        assert_eq!(Type::from_node(node, &src).unwrap(), expected, "{}", text);
    }
    let src = "<?php function f(): void {}";
    let root = parse_source(src);
    let function = find(&root, "function_definition").unwrap();
    let node = function.child_by_field_name("return_type").unwrap();
    assert_eq!(Type::from_node(node, src).unwrap(), Type::Void);

    let src = "<?php class A { public iterable $x; }";
    let root = parse_source(src);
    let decl = find(&root, "property_declaration").unwrap();
    let node = decl.child_by_field_name("type").unwrap();
    match Type::from_node(node, src) {
        Err(TypeError::UnsupportedType(name)) => assert_eq!(name, "iterable"),
        other => panic!("{:?}", other),
    }
}

#[test]
fn visibility_is_read_off_its_modifier() {
    let src = "<?php class A { private int $a; protected int $b; public int $c; }";
    let root = parse_source(src);
    let class = find(&root, "class_declaration").unwrap();
    let body = class.child_by_field_name("body").unwrap();
    let mut seen = vec![];
    for member in body.children.iter() {
        for child in member.children.iter() {
            if child.kind == "visibility_modifier" {
                seen.push(Visibility::from_node(child, src).unwrap());
            }
        }
    }
    assert_eq!(
        seen,
        vec![Visibility::Private, Visibility::Protected, Visibility::Public]
    );
}

fn node(kind: &str, field: Option<&str>, start: usize, end: usize, children: Vec<SyntaxNode>) -> SyntaxNode {
    let point = phplsp::syntax::Point { row: 0, column: 0 };
    SyntaxNode {
        kind: kind.to_string(),
        field: field.map(|f| f.to_string()),
        missing: None,
        span: phplsp::syntax::Span {
            start_byte: start,
            end_byte: end,
            start_point: point,
            end_point: point,
        },
        children,
    }
}

#[test]
fn a_class_without_a_name_yields_nothing() {
    let src = "class extends Ta {}";
    let class = node(
        "class_declaration",
        None,
        0,
        19,
        vec![
            node("class", None, 0, 5, vec![]),
            node(
                "base_clause",
                None,
                6,
                16,
                vec![node("extends", None, 6, 13, vec![]), node("name", None, 14, 16, vec![])],
            ),
            node("declaration_list", Some("body"), 17, 19, vec![]),
        ],
    );
    let program = node("program", None, 0, 19, vec![class]);
    let mut types = CustomTypesDatabase::new();
    let mut pool = SegmentPool::new();
    let deps = injest_types(&program, src, &mut pool, &mut types);
    assert!(deps.is_empty());
    assert_eq!(types.0.len(), 0);

    let named = "class Baz extends Ta {}";
    let class = node(
        "class_declaration",
        None,
        0,
        23,
        vec![
            node("class", None, 0, 5, vec![]),
            node("name", Some("name"), 6, 9, vec![]),
            node(
                "base_clause",
                None,
                10,
                20,
                vec![node("extends", None, 10, 17, vec![]), node("name", None, 18, 20, vec![])],
            ),
            node("declaration_list", Some("body"), 21, 23, vec![]),
        ],
    );
    let program = node("program", None, 0, 23, vec![class]);
    let deps = injest_types(&program, named, &mut pool, &mut types);
    assert_eq!(deps, vec![pool.intern_str("Ta")]);
    assert_eq!(types.0.len(), 1);
    assert!(types.0.get(&pool.intern_str("Baz")).is_some());
}
