use phplsp::diagnostics::{syntax, Position, Range, Severity};
use phplsp::symbols::{
    document_symbols, document_symbols_class_decl, document_symbols_const_decl,
    document_symbols_method_params_decl, document_symbols_property_decl, SymbolKind,
};
use phplsp::syntax::{lower_tree, SyntaxNode};

const SOURCE: &'static str = "<?php
            class Whatever {
                public int $x = 12;
                public function foo(int $bar): void
                {
                    $this->x = $bar;
                }

                public function fee(string $sound, ?array $down): int|false
                {
                    $this->x = 12;
                    if (!empty($down)) {
                        $this->x = ((int) $sound) + ((int) $down[0]);
                    }
                }
            }

            final class Another {
                private int $y = 3;
                public function __constructor(): void
                {
                }
            }";

fn parse_document(src: &str) -> SyntaxNode {
    let mut parser = tree_sitter::Parser::new();
    parser
        .set_language(&tree_sitter_php::LANGUAGE_PHP.into())
        .expect("error loading PHP grammar");
    let tree = parser.parse(src, None).unwrap();
    lower_tree(&tree).unwrap()
}

fn first<'a>(node: &'a SyntaxNode, kind: &str) -> Option<&'a SyntaxNode> {
    if node.kind == kind {
        return Some(node);
    }
    node.children.iter().find_map(|c| first(c, kind))
}

fn first_missing(node: &SyntaxNode) -> Option<&SyntaxNode> {
    if node.missing.is_some() {
        return Some(node);
    }
    node.children.iter().find_map(first_missing)
}

#[test]
fn get_symbols() {
    let root = parse_document(SOURCE);
    let actual_symbols = document_symbols(&root, &SOURCE.to_string());
    assert_eq!(2, actual_symbols.len());
    assert_eq!("Whatever", &actual_symbols[0].name);
    assert_eq!("Another", &actual_symbols[1].name);
    assert_eq!(3, actual_symbols[0].children.as_ref().unwrap().len());
    assert_eq!("$x", &actual_symbols[0].children.as_ref().unwrap()[0].name);
    assert_eq!("foo", &actual_symbols[0].children.as_ref().unwrap()[1].name);
    assert_eq!("fee", &actual_symbols[0].children.as_ref().unwrap()[2].name);
    assert!(actual_symbols[0].children.as_ref().unwrap()[0]
        .children
        .is_none());
    assert!(actual_symbols[0].children.as_ref().unwrap()[2]
        .children
        .is_none());
    assert_eq!(2, actual_symbols[1].children.as_ref().unwrap().len());
    assert_eq!(
        "private int $y = 3;",
        actual_symbols[1].children.as_ref().unwrap()[0]
            .detail
            .as_ref()
            .unwrap()
    );
    assert_eq!(
        SymbolKind::Constructor,
        actual_symbols[1].children.as_ref().unwrap()[1].kind
    );
}

#[test]
fn no_diags() {
    let root = parse_document(SOURCE);
    assert_eq!(0, syntax(&root, SOURCE).len());
}

#[test]
fn a_missing_semicolon_is_reported() {
    let src = "<?php echo 1";
    let root = parse_document(src);
    let diags = syntax(&root, src);
    assert_eq!(diags.len(), 1, "{:?}", diags);
    assert_eq!(diags[0].source, "ts");
    assert_eq!(diags[0].severity, Severity::Error);
    assert_eq!(diags[0].message, "MISSING \";\"");
    assert_eq!(
        diags[0].range,
        Range {
            start: Position { line: 0, character: 12 },
            end: Position { line: 0, character: 12 },
        }
    );
    let missing = first_missing(&root).unwrap();
    assert_eq!(missing.missing.as_deref(), Some("(MISSING \";\")"));
}

#[test]
fn text_that_cannot_be_placed_is_reported() {
    let src = "<?php $a = 1";
    let root = parse_document(src);
    let diags = syntax(&root, src);
    assert_eq!(diags.len(), 1, "{:?}", diags);
    assert_eq!(diags[0].source, "ts");
    assert_eq!(diags[0].severity, Severity::Error);
    assert_eq!(diags[0].message, "UNEXPECTED: $a = 1");
    assert_eq!(
        diags[0].range,
        Range {
            start: Position { line: 0, character: 6 },
            end: Position { line: 0, character: 12 },
        }
    );
}

#[test]
fn what_is_missing_comes_before_what_cannot_be_placed() {
    let src = "<?php function f( { }\necho 1";
    let root = parse_document(src);
    let diags = syntax(&root, src);
    let mut seen_unexpected = false;
    for d in diags.iter() {
        if d.message.starts_with("UNEXPECTED: ") {
            seen_unexpected = true;
        } else {
            assert!(d.message.starts_with("MISSING "), "{:?}", diags);
            assert!(!seen_unexpected, "{:?}", diags);
        }
    }
    assert!(!diags.is_empty());
}

#[test]
fn outline_of_functions_constants_and_properties() {
    let src = "<?php
function top($a, int $b) {}
class K {
    const LIMIT = 3;
    public $p;
    // note
    function m() {}
}";
    let root = parse_document(src);
    let symbols = document_symbols(&root, src);
    assert_eq!(symbols.len(), 2);
    assert_eq!(symbols[0].name, "top");
    assert_eq!(symbols[0].kind, SymbolKind::Function);
    assert!(symbols[0].detail.is_none());
    assert_eq!(symbols[0].children.as_ref().unwrap().len(), 0);
    assert_eq!(
        symbols[0].range,
        Range {
            start: Position { line: 1, character: 9 },
            end: Position { line: 1, character: 12 },
        }
    );
    assert_eq!(
        symbols[0].selection_range,
        Range {
            start: Position { line: 1, character: 0 },
            end: Position { line: 1, character: 27 },
        }
    );

    let class = first(&root, "class_declaration").unwrap();
    let members = document_symbols_class_decl(class, src);
    let seen: Vec<(&str, SymbolKind, Option<&str>)> = members
        .iter()
        .map(|s| (s.name.as_str(), s.kind, s.detail.as_deref()))
        .collect();
    assert_eq!(
        seen,
        vec![
            ("LIMIT", SymbolKind::Constant, Some("const LIMIT = 3;")),
            ("$p", SymbolKind::Property, Some("public $p;")),
            ("m", SymbolKind::Method, None),
        ]
    );

    let constant = first(&root, "const_declaration").unwrap();
    assert_eq!(document_symbols_const_decl(constant, src).unwrap().name, "LIMIT");
    assert!(document_symbols_property_decl(constant, src).is_none());
    let property = first(&root, "property_declaration").unwrap();
    assert_eq!(document_symbols_property_decl(property, src).unwrap().name, "$p");
    assert!(document_symbols_const_decl(property, src).is_none());

    let params = first(&root, "formal_parameters").unwrap();
    let found = document_symbols_method_params_decl(params, src);
    let seen: Vec<(&str, Option<&str>)> = found
        .iter()
        .map(|s| (s.name.as_str(), s.detail.as_deref()))
        .collect();
    assert_eq!(seen, vec![("$a", Some("$a")), ("$b", Some("int $b"))]);
    assert!(found.iter().all(|s| s.kind == SymbolKind::Variable));
}
