use phplsp::stubs::{unescape, FileMapping, MappingError};
use phplsp::syntax::{lower_tree, SyntaxNode};

const SOURCE: &'static str = "<?php
final class PhpStormStubsMap
{
const DIR = __DIR__;

const CLASSES = [
  'AMQPBasicProperties' => 'amqp/amqp.php',
  'AMQP\\annel' => 'amqp/amqp.php',
  'AMQPChannelException' => 'amqp/amqp.php',
  'AMQPConnection' => 'amqp/amqp.php',
  'AMQPConnectionException' => 'amqp/amqp.php',
  'AMQPDecimal' => 'amqp/amqp.php',
  'AMQPEnvelope' => 'amqp/amqp.php',
  'AMQP\\Envelope\\Exception' => 'amqp/amqp.php',
  ];
}";

fn parse_stubs(src: &str) -> SyntaxNode {
    let mut parser = tree_sitter::Parser::new();
    parser
        .set_language(&tree_sitter_php::LANGUAGE_PHP.into())
        .expect("error loading PHP grammar");
    let tree = parser.parse(src, None).unwrap();
    lower_tree(&tree).unwrap()
}

#[test]
fn snippet_of_phpstorm() {
    let root = parse_stubs(SOURCE);
    let file_mapping = FileMapping::node_to_mapping(&root, SOURCE).unwrap();

    assert_eq!(file_mapping.files_len(), 1);
    assert_eq!(file_mapping.len(), 8);
    assert!(file_mapping.has_file("amqp/amqp.php"));
    assert!(file_mapping.get("AMQP\\annel").is_some());
    assert!(file_mapping.get("AMQP\\Envelope\\Exception").is_some());
}

#[test]
fn doubled_backslashes_become_one() {
    assert_eq!(unescape("a\\\\b"), "a\\b");
    assert_eq!(unescape("a\\b"), "a\\b");
    assert_eq!(unescape("\\\\\\"), "\\\\");
    assert_eq!(unescape("\\\\\\\\"), "\\\\");
    assert_eq!(unescape(""), "");
    assert_eq!(unescape("\\"), "\\");
    assert_eq!(unescape("x\\\\"), "x\\");
    assert_eq!(unescape("\u{e9}\\\\\u{e9}"), "\u{e9}\\\u{e9}");
}

#[test]
fn escaped_names_are_unescaped_and_later_entries_win() {
    let src = "<?php const A = ['N\\\\S\\\\f' => 'one.php', 'g' => 'two.php', 'g' => 'three.php'];";
    let root = parse_stubs(src);
    let m = FileMapping::node_to_mapping(&root, src).unwrap();
    assert_eq!(m.len(), 2);
    assert_eq!(m.files_len(), 3);
    assert_eq!(m.get("N\\S\\f"), Some(&"one.php".to_string()));
    assert_eq!(m.get("g"), Some(&"three.php".to_string()));
    assert!(m.get("h").is_none());
}

#[test]
fn an_entry_that_is_no_pair_of_strings_ends_the_reading() {
    let src = "<?php const A = ['a' => 'one.php', 'b' => 2];";
    let root = parse_stubs(src);
    match FileMapping::node_to_mapping(&root, src) {
        Err(MappingError::UnexpectedType(found, wanted)) => {
            assert_eq!(found, "integer");
            assert_eq!(wanted, "string");
        }
        other => panic!("{:?}", other),
    }
    let src = "<?php const A = ['lonely'];";
    let root = parse_stubs(src);
    assert!(matches!(
        FileMapping::node_to_mapping(&root, src),
        Err(MappingError::NoChildFound)
    ));
    let src = "<?php const A = 1;";
    let root = parse_stubs(src);
    assert_eq!(FileMapping::node_to_mapping(&root, src).unwrap().len(), 0);
}

#[test]
fn mapping_errors_say_what_went_wrong() {
    assert_eq!(MappingError::NoMappingFound.to_string(), "no mapping found");
    assert_eq!(MappingError::NoChildFound.to_string(), "no child found");
    assert_eq!(MappingError::MissingNameNode.to_string(), "missing name node");
    assert_eq!(
        MappingError::UnexpectedType("integer".to_string(), "string".to_string()).to_string(),
        "found type integer (expected string)"
    );
    assert_eq!(
        MappingError::BadStubName("x".to_string()).to_string(),
        "unknown stubs mapping with name x"
    );
}
