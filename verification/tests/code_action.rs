use phplsp::code_action::{
    changes_phpecho, phpecho_edits, trim_end, white_space, Found,
};
use phplsp::diagnostics::Position;

#[test]
fn will_change_phpechos() {
    let contents = "<?php   echo   addslashes('evil evil')  ;    ?>


            <?php echo 34; ?>";
    let edits = changes_phpecho(&contents);
    let edit1 = &edits[0];
    let edit2 = &edits[1];

    assert_eq!(&edit1.new_text, "<?= addslashes('evil evil') ?>");
    assert_eq!(
        &edit1.range.start,
        &Position {
            line: 0,
            character: 0,
        }
    );
    assert_eq!(
        &edit1.range.end,
        &Position {
            line: 0,
            character: 47,
        }
    );
    assert_eq!(&edit2.new_text, "<?= 34 ?>");
    assert_eq!(
        &edit2.range.start,
        &Position {
            line: 3,
            character: 12,
        }
    );
    assert_eq!(
        &edit2.range.end,
        &Position {
            line: 3,
            character: 29,
        }
    );
    assert_eq!(edits.len(), 2);
}

#[test]
fn a_text_without_printing_tags_gets_no_edit() {
    assert!(changes_phpecho("<?php $a = 1; ?>").is_empty());
    assert!(changes_phpecho("").is_empty());
    assert!(changes_phpecho("<?php echo 1;").is_empty());
}

#[test]
fn edits_are_made_of_the_matches_given() {
    let contents = "ab\ncdef";
    let found = vec![
        Found { start: 1, end: 4, first: Some("x \t\n".to_string()) },
        Found { start: 0, end: 1, first: None },
        Found { start: 5, end: 50, first: Some(" y".to_string()) },
    ];
    let edits = phpecho_edits(contents, &found);
    assert_eq!(edits.len(), 2);
    assert_eq!(edits[0].new_text, "<?= x ?>");
    assert_eq!(edits[0].range.start, Position { line: 0, character: 1 });
    assert_eq!(edits[0].range.end, Position { line: 1, character: 1 });
    assert_eq!(edits[1].new_text, "<?=  y ?>");
    assert_eq!(edits[1].range.start, Position { line: 1, character: 2 });
    assert_eq!(edits[1].range.end, Position { line: 1, character: 4 });
}

#[test]
fn white_space_is_trimmed_at_the_end_only() {
    assert_eq!(trim_end("  a b \t\r\n"), "  a b");
    assert_eq!(trim_end("a\u{a0}\u{3000}\u{2003}"), "a");
    assert_eq!(trim_end(" \n "), "");
    assert_eq!(trim_end(""), "");
    assert_eq!(trim_end("a\u{200b}"), "a\u{200b}");
    for c in ['\u{9}', '\u{a}', '\u{b}', '\u{c}', '\u{d}', ' ', '\u{85}', '\u{1680}', '\u{2028}', '\u{2029}', '\u{202f}', '\u{205f}'] {
        assert!(white_space(c));
    }
    for c in (0u32..0x3100).filter_map(char::from_u32) {
        assert_eq!(white_space(c), c.is_whitespace(), "{:?}", c);
    }
}
