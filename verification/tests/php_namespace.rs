use phplsp::php_namespace::{DirPath, PhpNamespace, SegmentPool};
use std::sync::Arc;

fn texts(ns: &PhpNamespace) -> Vec<&str> {
    ns.0.iter().map(|s| s.as_str()).collect()
}

#[test]
fn equality() {
    let mut pool = SegmentPool::new();
    let equivalents = [["\\Abc\\Def", "\\Abc\\Def\\"], ["", "\\"]];

    for [a, b] in equivalents {
        let a = pool.intern_str(a);
        let b = pool.intern_str(b);
        assert_eq!(a, b);
    }
}

#[test]
fn is_within() {
    let mut pool = SegmentPool::new();
    let subnamespaces = [["Abc\\", "\\Abc\\Def\\"], ["", "Abc\\Def"]];

    for [a, b] in subnamespaces {
        let a = pool.intern_str(a);
        let b = pool.intern_str(b);
        assert!(a.is_within(&b));
    }
}

#[test]
fn is_not_within() {
    let mut pool = SegmentPool::new();
    let subnamespaces = [["\\Abc\\", "\\Def\\Abc"]];

    for [a, b] in subnamespaces {
        let a = pool.intern_str(a);
        let b = pool.intern_str(b);
        assert!(!a.is_within(&b));
    }
}

#[test]
fn longer_namespace_is_not_within_shorter() {
    let mut pool = SegmentPool::new();
    let a = pool.intern_str("Abc\\Def");
    let b = pool.intern_str("Abc");
    assert!(!a.is_within(&b));
    assert!(a.starts_with(&b));
    assert!(!b.starts_with(&a));
}

#[test]
fn intern_str_splits_on_backslashes() {
    let mut pool = SegmentPool::new();
    let ns = pool.intern_str("\\Foo\\\\Bar\\Foo\\");
    assert_eq!(texts(&ns), vec!["Foo", "Bar", "Foo"]);
    assert!(Arc::ptr_eq(&ns.0[0], &ns.0[2]));
    assert!(Arc::ptr_eq(&ns.0[1], pool.0.get("Bar").unwrap()));
    assert_eq!(ns.len(), 3);
    assert_eq!(pool.0.len(), 2);
    assert!(pool.0.contains("Foo"));
    assert!(pool.0.contains("Bar"));
    assert!(!pool.0.contains(""));
}

#[test]
fn intern_str_keeps_non_ascii_segments() {
    let mut pool = SegmentPool::new();
    let ns = pool.intern_str("Caf\u{e9}\\\u{65e5}\u{672c}");
    assert_eq!(texts(&ns), vec!["Caf\u{e9}", "\u{65e5}\u{672c}"]);
}

#[test]
fn intern_keeps_segments_as_given() {
    let mut pool = SegmentPool::new();
    let ns = pool.intern(&vec!["A".to_string(), "".to_string(), "A".to_string()]);
    assert_eq!(ns.len(), 3);
    assert_eq!(pool.0.len(), 2);
}

#[test]
fn intern_segment_returns_the_segment() {
    let mut pool = SegmentPool::new();
    let first = pool.intern_segment("Foo");
    let second = pool.intern_segment("Foo");
    assert_eq!(*first, "Foo");
    assert!(Arc::ptr_eq(&first, &second));
    assert_eq!(pool.0.len(), 1);
}

#[test]
fn push_pop_extend_len() {
    let mut ns = PhpNamespace::empty();
    assert_eq!(ns.len(), 0);
    assert_eq!(ns.pop(), None);
    ns.push(Arc::new("A".to_string()));
    ns.extend(vec![Arc::new("B".to_string()), Arc::new("C".to_string())]);
    assert_eq!(ns.len(), 3);
    assert_eq!(ns.pop(), Some(Arc::new("C".to_string())));
    assert_eq!(texts(&ns), vec!["A", "B"]);
}

#[test]
fn difference_is_what_lies_below() {
    let mut pool = SegmentPool::new();
    let full = pool.intern_str("A\\B\\C\\D");
    let base = pool.intern_str("A\\B");
    let other = pool.intern_str("X");
    assert_eq!(full.difference(&base), pool.intern_str("C\\D"));
    assert_eq!(full.difference(&other), PhpNamespace::empty());
    assert_eq!(base.difference(&full), PhpNamespace::empty());
    assert_eq!(full.difference(&full), PhpNamespace::empty());
}

#[test]
fn as_pathbuf_appends_the_difference() {
    let mut pool = SegmentPool::new();
    let base = pool.intern_str("PhpStorm");
    let full = pool.intern_str("PhpStorm\\curl\\sub");
    let dir = DirPath { root: "phpstorm-stubs/".to_string(), parts: vec![] };
    let got = base.as_pathbuf(&dir, &full);
    assert_eq!(got.root, "phpstorm-stubs/");
    assert_eq!(got.parts, vec!["curl".to_string(), "sub".to_string()]);
    let unrelated = pool.intern_str("Other");
    let got = unrelated.as_pathbuf(&dir, &full);
    assert!(got.parts.is_empty());
}

#[test]
fn to_string_puts_a_backslash_before_each_segment() {
    let mut pool = SegmentPool::new();
    assert_eq!(pool.intern_str("Foo\\Bar").to_string(), "\\Foo\\Bar");
    assert_eq!(pool.intern_str("Foo").to_string(), "\\Foo");
    assert_eq!(PhpNamespace::empty().to_string(), "\\");
}

#[test]
fn clone_is_equal() {
    let mut pool = SegmentPool::new();
    let a = pool.intern_str("Foo\\Bar");
    assert_eq!(a.clone(), a);
}
