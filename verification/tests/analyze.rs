use phplsp::analyze::{walk, walk_statement};
use phplsp::php_namespace::SegmentPool;
use phplsp::scope::Scope;
use phplsp::syntax::{lower_tree, SyntaxNode};

fn parse_php(src: &str) -> SyntaxNode {
    let mut parser = tree_sitter::Parser::new();
    parser
        .set_language(&tree_sitter_php::LANGUAGE_PHP.into())
        .expect("error loading PHP grammar");
    let tree = parser.parse(src, None).unwrap();
    lower_tree(&tree).unwrap()
}

#[test]
fn ns_usage() {
    let src = "<?php
        namespace Foo;

        use Foo\\Bar, Foo\\Bar\\Blah;
        use Foo\\Bah as Cat;";
    let root = parse_php(src);
    let mut pool = SegmentPool::new();
    let diags = walk(&root, src, &mut pool);
    assert!(diags.is_empty(), "src = {}\ndiags = {:?}", src, diags);
    assert_eq!(pool.0.len(), 4, "pool = {:?}", pool.0.to_vec());
}

#[test]
fn same_ns() {
    let src = "<?php
        namespace Foo;

        use Foo\\Bar, Foo\\Bar\\Blah;
        use Foo\\Bah as Bar;";
    let root = parse_php(src);
    let mut pool = SegmentPool::new();
    let diags = walk(&root, src, &mut pool);
    assert_eq!(diags.len(), 1, "src = {}\ndiags = {:?}", src, diags);
    assert_eq!(pool.0.len(), 4, "pool = {:?}", pool.0.to_vec());
}

#[test]
fn param_is_superglobal() {
    let src = "<?php
        function foo(int $_GET) {}";
    let root = parse_php(src);
    let diags = walk(&root, src, &mut SegmentPool::new());
    assert!(diags.len() == 1, "src = {}\ndiags = {:?}", src, diags);
}

#[test]
fn defined_superglobals() {
    let src = "<?php var_dump($_GET);";
    let root = parse_php(src);
    let diags = walk(&root, src, &mut SegmentPool::new());
    assert!(diags.is_empty(), "src = {}\ndiags = {:?}", src, diags);
}

#[test]
fn assignments_scoping() {
    let src = "<?php
        $var1 = 1 + 2;
        $var2 = $var1 + $var2;
        list($var3, $var4) = [$var1, $var4 + 2];
        ";
    let root = parse_php(src);
    let mut scope = Scope::empty();
    let mut iter = root.children.iter();

    // skip `<?php` tag
    iter.next();

    let stmt1 = iter.next().unwrap();
    assert_eq!("expression_statement", stmt1.kind);
    let mut diags = vec![];
    walk_statement(stmt1, src, &mut SegmentPool::new(), &mut scope, &mut diags);
    assert!(diags.is_empty());
    assert_eq!(10, scope.symbols.len());

    let stmt2 = iter.next().unwrap();
    assert_eq!("expression_statement", stmt2.kind);
    diags = vec![];
    walk_statement(stmt2, src, &mut SegmentPool::new(), &mut scope, &mut diags);
    assert_eq!(1, diags.len());
    let diag = &diags[0];
    assert_eq!("undefined variable $var2", &diag.message);
    assert_eq!(11, scope.symbols.len());

    assert!(scope.symbols.contains("$var1"));
    assert!(scope.symbols.contains("$var2"));

    let stmt3 = iter.next().unwrap();
    assert_eq!("expression_statement", stmt3.kind);
    diags = vec![];
    walk_statement(stmt3, src, &mut SegmentPool::new(), &mut scope, &mut diags);
    assert_eq!(1, diags.len());
    let diag = &diags[0];
    assert_eq!("undefined variable $var4", &diag.message);
    assert_eq!(13, scope.symbols.len());

    assert!(scope.symbols.contains("$var3"));
    assert!(scope.symbols.contains("$var4"));
}

#[test]
fn no_undefineds() {
    let srcs = [
        "<?php
            $var1 = 1 + 2;
            $var2 = $var1 + 3;",
        "<?php
            $var1 = 1 + 2;
            class Foo {
                private function x(): void {
                    $var2 = $var1 + 2;
                }
            }",
        "<?php
            $var1 = 1;
            if ($var1 === 2) {
                $var2 = 3;
                if ($var2 === 3) {}
            } else {
                $var3 = 4;
            }
            $var4 = $var3;",
        "<?php
            $container = [1, 2];
            foreach ($container as $i => $x) {
                echo $i;
                echo $x;
            }",
        "<?php
            $x = 300 + 40;
            for ($i = $x; $i < 0; $i++) {
                echo $i;
                echo $x;
            }",
        "<?php
            while ($i = 0) {
                echo $i;
            }",
        "<?php
            $f = fn($x) => $x + 1;",
        "<?php
            $b = 31;
            $f = function($x) use ($b) {return $x;};",
        "<?php
            do {
                $i = 0;
            } while ($i > 10);",
        "<?php
            array_map(function () {
                $a = 3;
                return $a;
            }, []);",
        "<?php
            $x = 1;
            array_map(function() use ($x) {
                $a = $x;
                return $a;
            }, []);",
        "<?php
            $x = $_GET['x'];
            switch ($x) {
            case 3:
            case 4:
                $y = 300;
                break;
            case 6:
            default:
                $y = 400;
                break;
            }

            $z = $y;",
        "<?php
            $l = [1, 2, 3];
            $sum = 0;
            foreach ($l as &$item) {
                $sum += $item;
                $item = 0;
            }",
        "<?php
            $a = 3;
            $b = &$a;",
    ];

    for src in srcs {
        let root = parse_php(src);
        let diags = walk(&root, src, &mut SegmentPool::new());
        assert!(diags.is_empty(), "src = {}\ndiags = {:?}", src, diags);
    }
}

#[test]
fn non_zero_undefineds() {
    let srcs = [
        "<?php
            $var1 = 1 + 2;
            $var2 = $var1 + $var2;",
        "<?php
            $var1 = 2;
            if ($var2 == 5) {}",
        "<?php
            if (true) {
                $var1 = 4;
            } else {
                $var2 = $var1;
            }",
        "<?php
            foreach ($container as $i => $x) {
                echo $i;
                echo $x;
            }",
        "<?php
            for ($i = $x; $i < 0; $i++) {
                echo $i;
                echo $x;
            }",
        "<?php
            while ($i = $x) {
                echo $i;
            }",
        "<?php
            $f = fn($x) => $i + $x;",
        "<?php
            $f = function($x) use ($b) {return $x;};",
        "<?php
            do {
                $i = 0;
            } while ($i = $x);",
        "<?php
            echo $x;",
    ];

    for src in srcs {
        let root = parse_php(src);
        let diags = walk(&root, src, &mut SegmentPool::new());
        assert!(!diags.is_empty(), "src = {}\ndiags = {:?}", src, diags);
    }
}

#[test]
fn deeply_nested_code_is_walked() {
    let mut src = String::from("<?php $a = ");
    for _ in 0..400 {
        src.push('(');
    }
    src.push_str("$x");
    for _ in 0..400 {
        src.push(')');
    }
    src.push(';');
    let root = parse_php(&src);
    let diags = walk(&root, &src, &mut SegmentPool::new());
    assert_eq!(diags.len(), 1);
    assert_eq!(diags[0].message, "undefined variable $x");

    let mut src = String::from("<?php echo $y");
    for _ in 0..400 {
        src.push_str(" . $y");
    }
    src.push(';');
    let root = parse_php(&src);
    let diags = walk(&root, &src, &mut SegmentPool::new());
    assert_eq!(diags.len(), 401);
}

#[test]
fn operands_are_read_from_the_last_to_the_first() {
    let src = "<?php echo $a + $b;";
    let root = parse_php(src);
    let diags = walk(&root, src, &mut SegmentPool::new());
    let messages: Vec<&str> = diags.iter().map(|d| d.message.as_str()).collect();
    assert_eq!(messages, vec!["undefined variable $b", "undefined variable $a"]);
}

#[test]
fn loops_and_switches_bind_for_what_follows() {
    let src = "<?php
        foreach ([1] as $k => &$v) { $in = $k; }
        for ($i = 0; $i < 1; $i++) { $f = $i; }
        while ($w = 1) { $x = $w; }
        echo $k, $v, $in, $i, $f, $w, $x;";
    let root = parse_php(src);
    let diags = walk(&root, src, &mut SegmentPool::new());
    assert!(diags.is_empty(), "{:?}", diags);
}

#[test]
fn class_members_do_not_see_each_other() {
    let src = "<?php
        class A {
            function one() { $local = $this; echo self; }
            function two() { echo $local; }
        }
        echo $this;";
    let root = parse_php(src);
    let diags = walk(&root, src, &mut SegmentPool::new());
    let messages: Vec<&str> = diags.iter().map(|d| d.message.as_str()).collect();
    assert_eq!(
        messages,
        vec!["undefined variable $local", "undefined variable $this"]
    );
}
