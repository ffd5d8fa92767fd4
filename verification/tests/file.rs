use phplsp::diagnostics::{Position, Range};
use phplsp::file::{
    byte_offset, comment_ranges, edit_for, offset_to_point, offset_to_position, parse, splice,
    Applied, FileData, FileError, TextChange,
};
use phplsp::syntax::{comment_spans, lower, lower_tree, Point, SyntaxNode, MAX_DEPTH};

const SOURCE: &'static str = "<?php
            class Whatever {
                public int $x = 12;
                public function foo(int $bar): void
                {
                    $this->x = $bar;
                }

                public function fee(string $sound, ?array $down): int|false
                {
                    $this->x = 12;
                    if (!empty($down)) {
                        $this->x = ((int) $sound) + ((int) $down[0]);
                    }
                }
            }

            final class Another {
                private int $y = 3;
                public function __constructor(): void
                {
                }
            }";

fn php_parser() -> tree_sitter::Parser {
    let mut parser = tree_sitter::Parser::new();
    parser
        .set_language(&tree_sitter_php::LANGUAGE_PHP.into())
        .expect("error loading PHP grammar");
    parser
}

fn at(line: u32, character: u32) -> Position {
    Position { line, character }
}

fn between(a: Position, b: Position) -> Range {
    Range { start: a, end: b }
}

fn shape(node: &SyntaxNode, out: &mut String) {
    out.push('(');
    out.push_str(&node.kind);
    out.push_str(&format!(
        " {}-{} {}:{}-{}:{}",
        node.span.start_byte,
        node.span.end_byte,
        node.span.start_point.row,
        node.span.start_point.column,
        node.span.end_point.row,
        node.span.end_point.column
    ));
    if let Some(field) = &node.field {
        out.push_str(" @");
        out.push_str(field);
    }
    for child in node.children.iter() {
        shape(child, out);
    }
    out.push(')');
}

fn shape_of(node: &SyntaxNode) -> String {
    let mut out = String::new();
    shape(node, &mut out);
    out
}

#[test]
fn file_valid_byte_offsets() {
    let valids = [(at(0, 0), 0usize), (at(1, 0), 6usize)];

    let s = SOURCE.to_string();
    for (pos, expected) in valids {
        assert_eq!(expected, byte_offset(&s, &pos).unwrap());
    }
}

#[test]
fn file_invalid_byte_offsets() {
    let invalids = [at(200, 10)];

    let s = SOURCE.to_string();
    for invalid_position in invalids {
        assert_eq!(None, byte_offset(&s, &invalid_position));
    }
}

#[test]
fn byte_offset_counts_bytes_into_the_line() {
    let text = "ab\nc\u{e9}d\n";
    assert_eq!(byte_offset(text, &at(0, 2)), Some(2));
    assert_eq!(byte_offset(text, &at(1, 0)), Some(3));
    assert_eq!(byte_offset(text, &at(1, 3)), Some(6));
    assert_eq!(byte_offset(text, &at(2, 0)), Some(8));
    assert_eq!(byte_offset(text, &at(3, 0)), None);
    assert_eq!(byte_offset(text, &at(0, 2000)), Some(2000));
    assert_eq!(byte_offset("", &at(0, 0)), Some(0));
    assert_eq!(byte_offset("", &at(1, 0)), None);
}

#[test]
fn offset_to_position_counts_rows_and_bytes() {
    let text = "ab\nc\u{e9}d\n";
    assert_eq!(offset_to_position(text, 0), at(0, 0));
    assert_eq!(offset_to_position(text, 2), at(0, 2));
    assert_eq!(offset_to_position(text, 3), at(1, 0));
    assert_eq!(offset_to_position(text, 6), at(1, 3));
    assert_eq!(offset_to_position(text, 8), at(2, 0));
    assert_eq!(offset_to_position(text, 800), at(2, 0));
    assert_eq!(offset_to_point(text, 7), Point { row: 1, column: 4 });
}

#[test]
fn positions_survive_the_round_trip() {
    let text = "<?php\n$a = 1;\n\n  echo $a;\nlast";
    let mut line = 0u32;
    let mut character = 0u32;
    for c in text.chars() {
        let p = at(line, character);
        let offset = byte_offset(text, &p).unwrap();
        assert_eq!(offset_to_position(text, offset), p);
        if c == '\n' {
            line += 1;
            character = 0;
        } else {
            character += 1;
        }
    }
    let end = at(line, character);
    assert_eq!(offset_to_position(text, byte_offset(text, &end).unwrap()), end);
}

#[test]
fn edit_says_what_the_parser_must_know() {
    let text = "<?php\n$a = 1;\n";
    let edit = edit_for(text, &between(at(1, 5), at(1, 6)), "22\n3").unwrap();
    assert_eq!(edit.start_byte, 11);
    assert_eq!(edit.old_end_byte, 12);
    assert_eq!(edit.new_end_byte, 15);
    assert_eq!(edit.start_position, Point { row: 1, column: 5 });
    assert_eq!(edit.old_end_position, Point { row: 1, column: 6 });
    assert_eq!(edit.new_end_position, Point { row: 2, column: 1 });

    let edit = edit_for(text, &between(at(1, 5), at(1, 6)), "22").unwrap();
    assert_eq!(edit.new_end_position, Point { row: 1, column: 7 });
    let edit = edit_for(text, &between(at(1, 0), at(1, 0)), "").unwrap();
    assert_eq!(edit.new_end_byte, 6);
    assert_eq!(edit.new_end_position, Point { row: 1, column: 0 });
}

#[test]
fn edit_refuses_ranges_outside_the_document() {
    let text = "<?php\n$a = \u{e9};\n";
    let cases = [
        between(at(7, 0), at(7, 1)),
        between(at(0, 0), at(7, 1)),
        between(at(1, 3), at(1, 1)),
        between(at(1, 0), at(1, 200)),
        between(at(1, 0), at(1, 6)),
    ];
    for range in cases {
        assert_eq!(
            edit_for(text, &range, "x"),
            Err(FileError::InvalidFileRange(range))
        );
    }
}

#[test]
fn splice_replaces_the_bytes() {
    assert_eq!(splice("hello world", 6, 11, "there").unwrap(), "hello there");
    assert_eq!(splice("hello", 0, 0, ">").unwrap(), ">hello");
    assert_eq!(splice("caf\u{e9}!", 3, 5, "e").unwrap(), "cafe!");
    assert_eq!(splice("abc", 3, 3, "d").unwrap(), "abcd");
    assert_eq!(splice("abc", 2, 1, "d"), None);
    assert_eq!(splice("abc", 1, 4, "d"), None);
    assert_eq!(splice("caf\u{e9}!", 4, 5, "e"), None);
}

#[test]
fn change_edits_the_text() {
    let mut php = php_parser();
    let mut doc = php_parser();
    let mut file = FileData::open(&mut php, &mut doc, "<?php\n$a = 1;\n".to_string(), 1).unwrap();
    let change = TextChange {
        range: Some(between(at(1, 5), at(1, 6))),
        text: "$b".to_string(),
    };
    assert_eq!(file.change(&change), Ok(()));
    assert_eq!(file.contents, "<?php\n$a = $b;\n");
    assert_eq!(file.version, 1);

    let whole = TextChange { range: None, text: "<?php echo 1;".to_string() };
    assert_eq!(file.change(&whole), Ok(()));
    assert_eq!(file.contents, "<?php echo 1;");
}

#[test]
fn change_refuses_a_range_outside_and_touches_nothing() {
    let mut php = php_parser();
    let mut doc = php_parser();
    let mut file = FileData::open(&mut php, &mut doc, "<?php\n$a = 1;\n".to_string(), 1).unwrap();
    let before = shape_of(file.syntax.as_ref().unwrap());
    let range = between(at(200, 10), at(200, 11));
    let change = TextChange { range: Some(range), text: "x".to_string() };
    assert_eq!(file.change(&change), Err(FileError::InvalidFileRange(range)));
    assert_eq!(file.contents, "<?php\n$a = 1;\n");
    assert_eq!(shape_of(&lower_tree(&file.php_tree).unwrap()), before);
}

#[test]
fn apply_rejects_stale_versions() {
    let mut php = php_parser();
    let mut doc = php_parser();
    let mut file = FileData::open(&mut php, &mut doc, "<?php\n$a = 1;\n".to_string(), 3).unwrap();
    let changes = vec![TextChange { range: None, text: "<?php".to_string() }];
    assert!(matches!(file.apply(&mut php, &mut doc, 3, &changes), Applied::Stale));
    assert!(matches!(file.apply(&mut php, &mut doc, 2, &changes), Applied::Stale));
    assert_eq!(file.contents, "<?php\n$a = 1;\n");
    assert_eq!(file.version, 3);
}

#[test]
fn apply_takes_changes_in_order_and_reparses() {
    let mut php = php_parser();
    let mut doc = php_parser();
    let mut file = FileData::open(&mut php, &mut doc, "<?php\n$a = 1;\n".to_string(), 1).unwrap();
    let bad = between(at(9, 0), at(9, 0));
    let changes = vec![
        TextChange { range: Some(between(at(1, 5), at(1, 6))), text: "$b".to_string() },
        TextChange { range: Some(bad), text: "no".to_string() },
        TextChange { range: Some(between(at(2, 0), at(2, 0))), text: "echo $a;\n".to_string() },
    ];
    match file.apply(&mut php, &mut doc, 2, &changes) {
        Applied::Done { rejected, reparsed } => {
            assert_eq!(rejected, vec![FileError::InvalidFileRange(bad)]);
            assert_eq!(reparsed, Ok(()));
        }
        other => panic!("{:?}", other),
    }
    assert_eq!(file.contents, "<?php\n$a = $b;\necho $a;\n");
    assert_eq!(file.version, 2);

    let fresh = php_parser().parse(&file.contents, None).unwrap();
    assert_eq!(
        shape_of(file.syntax.as_ref().unwrap()),
        shape_of(&lower_tree(&fresh).unwrap())
    );
    assert_eq!(
        shape_of(&lower_tree(&file.php_tree).unwrap()),
        shape_of(&lower_tree(&fresh).unwrap())
    );
}

#[test]
fn reparsing_unchanged_text_gives_the_same_tree() {
    let mut php = php_parser();
    let mut doc = php_parser();
    let first = parse(&mut php, &mut doc, SOURCE, None, None).unwrap();
    let again = parse(
        &mut php,
        &mut doc,
        SOURCE,
        Some(&first.php_tree),
        Some(&first.comments_tree),
    )
    .unwrap();
    let mut other_php = php_parser();
    let mut other_doc = php_parser();
    let scratch = parse(&mut other_php, &mut other_doc, SOURCE, None, None).unwrap();
    assert_eq!(
        shape_of(again.syntax.as_ref().unwrap()),
        shape_of(scratch.syntax.as_ref().unwrap())
    );
    assert_eq!(
        shape_of(&lower_tree(&again.comments_tree).unwrap()),
        shape_of(&lower_tree(&scratch.comments_tree).unwrap())
    );
}

#[test]
fn comments_are_found_in_the_order_of_the_text() {
    let src = "<?php\n// one\nclass A {\n  /** two */\n  public int $x;\n}\n# three\n";
    let tree = php_parser().parse(src, None).unwrap();
    let root = lower_tree(&tree).unwrap();
    let spans = comment_spans(&root);
    let texts: Vec<&str> = spans.iter().map(|s| &src[s.start_byte..s.end_byte]).collect();
    assert_eq!(texts, vec!["// one", "/** two */", "# three"]);
    assert_eq!(comment_ranges(&Some(root)), spans);
    assert!(comment_ranges(&None).is_empty());
}

#[test]
fn the_tree_is_taken_over_with_kinds_fields_and_spans() {
    let src = "<?php $a = 1;";
    let tree = php_parser().parse(src, None).unwrap();
    let root = lower_tree(&tree).unwrap();
    assert_eq!(root.kind, "program");
    assert!(root.is("program"));
    assert!(root.field.is_none());
    assert_eq!(root.span.start_byte, 0);
    assert_eq!(root.span.end_byte, src.len());
    let statement = root.child(1).unwrap();
    assert_eq!(statement.kind, "expression_statement");
    let assign = statement.child(0).unwrap();
    assert_eq!(assign.kind, "assignment_expression");
    let left = assign.child_by_field_name("left").unwrap();
    assert_eq!(left.text(src), Some("$a"));
    assert_eq!(left.field.as_deref(), Some("left"));
    assert_eq!(assign.field_position("right"), Some(2));
    assert!(assign.child_by_field_name("nothing").is_none());
    assert!(assign.child(17).is_none());
    assert_eq!(left.text("<?"), None);
}

#[test]
fn a_tree_deeper_than_the_limit_is_not_taken_over() {
    let src = "<?php $a = 1;";
    let tree = php_parser().parse(src, None).unwrap();
    assert!(lower(tree.root_node(), 2).is_none());
    assert!(lower(tree.root_node(), 0).is_none());
    assert!(lower(tree.root_node(), 10).is_some());

    let mut deep = String::from("<?php $a = ");
    for _ in 0..(MAX_DEPTH + 10) {
        deep.push('(');
    }
    deep.push('1');
    for _ in 0..(MAX_DEPTH + 10) {
        deep.push(')');
    }
    deep.push(';');
    let tree = php_parser().parse(&deep, None).unwrap();
    assert!(lower_tree(&tree).is_none());
}

#[test]
fn a_parser_without_a_language_gives_no_tree() {
    let mut bare = tree_sitter::Parser::new();
    let mut doc = php_parser();
    assert!(matches!(
        parse(&mut bare, &mut doc, "<?php", None, None),
        Err(phplsp::file::ParseError::NoCodeTree)
    ));
    let mut php = php_parser();
    let mut bare = tree_sitter::Parser::new();
    assert!(matches!(
        parse(&mut php, &mut bare, "<?php", None, None),
        Err(phplsp::file::ParseError::NoCommentTree)
    ));
    assert!(matches!(
        FileData::open(&mut php, &mut bare, "<?php".to_string(), 1),
        Err(phplsp::file::ParseError::NoCommentTree)
    ));
}

#[test]
fn a_document_declares_no_types_yet() {
    let mut php = php_parser();
    let mut doc = php_parser();
    let file = FileData::open(&mut php, &mut doc, "<?php class A {}".to_string(), 7).unwrap();
    assert!(file.types().is_empty());
    assert_eq!(file.version, 7);
    assert_eq!(file.contents, "<?php class A {}");
}

#[test]
fn changes_in_text_with_wide_characters() {
    let mut php = php_parser();
    let mut doc = php_parser();
    let text = "<?php\n$a = '\u{e9}t\u{e9}';\n";
    let mut file = FileData::open(&mut php, &mut doc, text.to_string(), 1).unwrap();
    let inside = between(at(1, 7), at(1, 8));
    let changes = vec![
        TextChange { range: Some(inside), text: "x".to_string() },
        TextChange { range: Some(between(at(1, 6), at(1, 8))), text: "e".to_string() },
    ];
    match file.apply(&mut php, &mut doc, 2, &changes) {
        Applied::Done { rejected, reparsed } => {
            assert_eq!(rejected, vec![FileError::InvalidFileRange(inside)]);
            assert_eq!(reparsed, Ok(()));
        }
        other => panic!("{:?}", other),
    }
    assert_eq!(file.contents, "<?php\n$a = 'et\u{e9}';\n");
}
