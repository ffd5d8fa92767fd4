use phplsp::analyze::{walk, walk_statement};
use phplsp::diagnostics::{
    to_point, to_position, to_range, DiagnosticsOptions, Position, Range, Severity,
};
use phplsp::names::{NameMap, NameSet};
use phplsp::php_namespace::SegmentPool;
use phplsp::scope::{is_superglobal, Scope};
use phplsp::syntax::{lower_tree, Point, Span, SyntaxNode};

const SUPERGLOBALS: [&str; 9] = [
    "$GLOBALS", "$_SERVER", "$_GET", "$_POST", "$_FILES", "$_COOKIE", "$_SESSION", "$_REQUEST",
    "$_ENV",
];

fn parse_text(src: &str) -> SyntaxNode {
    let mut parser = tree_sitter::Parser::new();
    parser
        .set_language(&tree_sitter_php::LANGUAGE_PHP.into())
        .expect("error loading PHP grammar");
    let tree = parser.parse(src, None).unwrap();
    lower_tree(&tree).unwrap()
}

fn scope_with(names: &[&str]) -> Scope {
    let mut scope = Scope::empty();
    for name in names {
        scope.symbols.insert(name.to_string());
    }
    scope
}

fn sorted(set: &NameSet) -> Vec<String> {
    let mut names = set.to_vec();
    names.sort();
    names
}

#[test]
fn empty_scope_binds_the_superglobals() {
    let scope = Scope::empty();
    assert_eq!(scope.symbols.len(), 9);
    for name in SUPERGLOBALS {
        assert!(scope.symbols.contains(name), "{}", name);
        assert!(is_superglobal(name));
    }
    assert!(scope.ns.is_none());
    assert_eq!(scope.ns_aliases.len(), 0);
    assert!(!is_superglobal("$var"));
    assert!(!is_superglobal("$_get"));
}

#[test]
fn absorb_unions_symbols_and_aliases() {
    let mut pool = SegmentPool::new();
    let mut a = scope_with(&["$a", "$both"]);
    a.ns = Some(pool.intern_str("Here"));
    a.ns_aliases.insert("Keep".to_string(), pool.intern_str("A\\Keep"));
    a.ns_aliases.insert("Both".to_string(), pool.intern_str("A\\Both"));
    let mut b = scope_with(&["$b", "$both"]);
    b.ns = Some(pool.intern_str("There"));
    b.ns_aliases.insert("Both".to_string(), pool.intern_str("B\\Both"));
    b.ns_aliases.insert("New".to_string(), pool.intern_str("B\\New"));
    a.absorb(b);
    assert_eq!(a.symbols.len(), 12);
    assert!(a.symbols.contains("$a"));
    assert!(a.symbols.contains("$b"));
    assert!(a.symbols.contains("$both"));
    assert_eq!(a.ns, Some(pool.intern_str("Here")));
    assert_eq!(a.ns_aliases.len(), 3);
    assert_eq!(a.ns_aliases.get("Keep"), Some(&pool.intern_str("A\\Keep")));
    assert_eq!(a.ns_aliases.get("Both"), Some(&pool.intern_str("B\\Both")));
    assert_eq!(a.ns_aliases.get("New"), Some(&pool.intern_str("B\\New")));
}

#[test]
fn absorb_binds_the_same_names_in_any_order() {
    let branches = [
        scope_with(&["$a"]),
        scope_with(&["$b", "$c"]),
        scope_with(&["$a", "$d"]),
    ];
    let orders = [[0, 1, 2], [0, 2, 1], [1, 0, 2], [1, 2, 0], [2, 0, 1], [2, 1, 0]];
    let mut expected: Option<Vec<String>> = None;
    for order in orders {
        let mut base = scope_with(&["$base"]);
        for i in order {
            base.absorb(branches[i].clone());
        }
        let got = sorted(&base.symbols);
        assert_eq!(got.len(), 14);
        match &expected {
            Some(e) => assert_eq!(&got, e),
            None => expected = Some(got),
        }
    }
    let mut nested = scope_with(&["$base"]);
    let mut merged = branches[0].clone();
    merged.absorb(branches[1].clone());
    merged.absorb(branches[2].clone());
    nested.absorb(merged);
    assert_eq!(Some(sorted(&nested.symbols)), expected);
}

#[test]
fn superglobals_are_never_undefined() {
    for name in SUPERGLOBALS {
        let srcs = [
            format!("<?php echo {};", name),
            format!("<?php $f = function() {{ $a = {}; }};", name),
            format!("<?php function f() {{ if ({}) {{ echo {}; }} }}", name, name),
            format!("<?php class A {{ function m() {{ $x = fn($y) => {}; }} }}", name),
        ];
        for src in srcs {
            let root = parse_text(&src);
            let diags = walk(&root, &src, &mut SegmentPool::new());
            assert!(diags.is_empty(), "src = {}\ndiags = {:?}", src, diags);
        }
    }
}

#[test]
fn simple_undefined_use() {
    let src = "<?php $var1 = 1 + 2; $var2 = $var1 + $var2;";
    let root = parse_text(src);
    let mut scope = Scope::empty();
    let mut diags = vec![];
    for statement in root.children.iter().skip(1) {
        walk_statement(statement, src, &mut SegmentPool::new(), &mut scope, &mut diags);
    }
    assert_eq!(diags.len(), 1);
    assert_eq!(diags[0].message, "undefined variable $var2");
    assert_eq!(diags[0].source, "undef");
    assert_eq!(diags[0].severity, Severity::Error);
    assert_eq!(
        diags[0].range,
        Range {
            start: Position { line: 0, character: 37 },
            end: Position { line: 0, character: 42 },
        }
    );
    let mut expected: Vec<String> = SUPERGLOBALS.iter().map(|s| s.to_string()).collect();
    expected.push("$var1".to_string());
    expected.push("$var2".to_string());
    expected.sort();
    assert_eq!(sorted(&scope.symbols), expected);
}

#[test]
fn list_destructuring_binds_all_targets() {
    let src = "<?php list($var3, $var4) = [$var1, $var4 + 2];";
    let root = parse_text(src);
    let mut scope = scope_with(&["$var1"]);
    let mut diags = vec![];
    walk_statement(&root.children[1], src, &mut SegmentPool::new(), &mut scope, &mut diags);
    assert_eq!(diags.len(), 1);
    assert_eq!(diags[0].message, "undefined variable $var4");
    assert!(scope.symbols.contains("$var3"));
    assert!(scope.symbols.contains("$var4"));
    assert_eq!(scope.symbols.len(), 12);
}

#[test]
fn if_else_union_binding() {
    let src = "<?php if (true) { $var1 = 4; } else { $var2 = $var1; }";
    let root = parse_text(src);
    let mut scope = Scope::empty();
    let mut diags = vec![];
    walk_statement(&root.children[1], src, &mut SegmentPool::new(), &mut scope, &mut diags);
    assert_eq!(diags.len(), 1);
    assert_eq!(diags[0].message, "undefined variable $var1");
    assert!(scope.symbols.contains("$var1"));
    assert!(scope.symbols.contains("$var2"));
    assert_eq!(scope.symbols.len(), 11);
}

#[test]
fn namespace_alias_collision() {
    let src = "<?php use Foo\\Bar; use Foo\\Bah as Bar;";
    let root = parse_text(src);
    let diags = walk(&root, src, &mut SegmentPool::new());
    assert_eq!(diags.len(), 1);
    assert_eq!(diags[0].source, "dupe");
    assert_eq!(diags[0].message, "namespace alias Bar already declared");
    assert_eq!(diags[0].severity, Severity::Error);
}

#[test]
fn a_parameter_named_like_a_superglobal_is_reported() {
    let src = "<?php function foo(int $_GET, $ok) { echo $ok; }";
    let root = parse_text(src);
    let diags = walk(&root, src, &mut SegmentPool::new());
    assert_eq!(diags.len(), 1);
    assert_eq!(diags[0].source, "superglobal");
    assert_eq!(diags[0].message, "superglobal $_GET cannot be shadowed");
}

#[test]
fn every_read_of_an_unbound_name_is_reported() {
    let src = "<?php echo $x; echo $x; echo $y + $x;";
    let root = parse_text(src);
    let diags = walk(&root, src, &mut SegmentPool::new());
    let messages: Vec<&str> = diags.iter().map(|d| d.message.as_str()).collect();
    assert_eq!(
        messages,
        vec![
            "undefined variable $x",
            "undefined variable $x",
            "undefined variable $x",
            "undefined variable $y",
        ]
    );
}

#[test]
fn an_anonymous_function_sees_only_what_it_captures() {
    let src = "<?php $a = 1; $b = 2; $f = function($p) use ($a) { $x = $a; $y = $p; $z = $b; };";
    let root = parse_text(src);
    let diags = walk(&root, src, &mut SegmentPool::new());
    let messages: Vec<&str> = diags.iter().map(|d| d.message.as_str()).collect();
    assert_eq!(messages, vec!["undefined variable $b"]);

    let src = "<?php $a = 1; $f = fn($p) => $a + $p + $q;";
    let root = parse_text(src);
    let diags = walk(&root, src, &mut SegmentPool::new());
    let messages: Vec<&str> = diags.iter().map(|d| d.message.as_str()).collect();
    assert_eq!(messages, vec!["undefined variable $q"]);
}

#[test]
fn only_a_program_is_walked() {
    let src = "<?php echo $x;";
    let root = parse_text(src);
    let statement = &root.children[1];
    assert!(walk(statement, src, &mut SegmentPool::new()).is_empty());
    assert_eq!(walk(&root, src, &mut SegmentPool::new()).len(), 1);
}

#[test]
fn points_positions_and_spans_convert() {
    let point = Point { row: 3, column: 7 };
    assert_eq!(to_position(&point), Position { line: 3, character: 7 });
    assert_eq!(to_point(&Position { line: 3, character: 7 }), point);
    let span = Span {
        start_byte: 1,
        end_byte: 9,
        start_point: Point { row: 0, column: 1 },
        end_point: Point { row: 2, column: 4 },
    };
    assert_eq!(
        to_range(&span),
        Range {
            start: Position { line: 0, character: 1 },
            end: Position { line: 2, character: 4 },
        }
    );
    let options = DiagnosticsOptions::default();
    assert!(options.syntax && options.undefined);
}

#[test]
fn name_collections_keep_each_name_once() {
    let mut set = NameSet::new();
    assert!(set.is_empty());
    assert!(set.insert("a".to_string()));
    assert!(!set.insert("a".to_string()));
    assert!(set.insert("b".to_string()));
    assert_eq!(set.len(), 2);
    assert_eq!(set.get("a").map(|s| s.as_str()), Some("a"));
    assert!(set.get("c").is_none());
    assert!(!set.insert_shared(std::sync::Arc::new("b".to_string())));
    assert_eq!(set.to_vec(), vec!["a".to_string(), "b".to_string()]);
    let mut other = NameSet::new();
    other.insert("c".to_string());
    other.insert("a".to_string());
    set.absorb(&other);
    assert_eq!(set.clone().to_vec(), vec!["a".to_string(), "b".to_string(), "c".to_string()]);

    let mut map: NameMap<u32> = NameMap::new();
    map.insert("x".to_string(), 1);
    map.insert("y".to_string(), 2);
    map.insert("x".to_string(), 3);
    assert_eq!(map.len(), 2);
    assert_eq!(map.get("x"), Some(&3));
    assert_eq!(map.get("z"), None);
    assert!(map.contains_key("y"));
    assert_eq!(map.key_at(1), "y");
    assert_eq!(*map.value_at(0), 3);
}
