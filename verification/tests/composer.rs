use phplsp::composer::{Autoload, AutoloadError, ResolutionError};
use phplsp::php_namespace::{PhpNamespace, SegmentPool};

fn autoload(pool: &mut SegmentPool, entries: &[(&str, &[&str])]) -> Autoload {
    let mut a = Autoload::new();
    for (ns, dirs) in entries {
        a.insert(pool, ns, dirs.iter().map(|d| d.to_string()).collect());
    }
    a
}

#[test]
fn no_matching_ns() {
    let mut pool = SegmentPool::new();
    let a = autoload(
        &mut pool,
        &[("Foo\\Bar\\", &["src/foo/bar"]), ("Koo\\Tar\\", &["src/koo/tar"])],
    );
    let finds = [pool.intern_str("Ark\\Kaltsit"), pool.intern_str("Foo\\Ark\\Kaltsit\\")];

    for to_find in finds.iter() {
        assert_eq!(a.matching_ns(to_find), Vec::new());
    }
}

#[test]
fn one_matching_ns() {
    let mut pool = SegmentPool::new();
    let a = autoload(
        &mut pool,
        &[("Foo\\Bar\\", &["src/foo/bar"]), ("Koo\\Tar\\", &["src/koo/tar"])],
    );
    let to_find = pool.intern_str("Foo\\Bar\\Ark\\Kaltsit\\");

    assert_eq!(a.matching_ns(&to_find), vec![pool.intern_str("Foo\\Bar\\")]);
}

#[test]
fn php_storm_resolves() {
    let mut pool = SegmentPool::new();
    let a = autoload(&mut pool, &[("PhpStorm\\", &["phpstorm-stubs/"])]);
    let to_find_file = pool.intern_str("PhpStorm\\curl\\curl");

    let places = a.resolve_as_file(to_find_file).unwrap();
    assert_eq!(places.len(), 1);
    assert_eq!(places[0].root, "phpstorm-stubs/");
    assert_eq!(places[0].parts, vec!["curl".to_string(), "curl.php".to_string()]);
}

#[test]
fn longer_roots_come_first() {
    let mut pool = SegmentPool::new();
    let a = autoload(
        &mut pool,
        &[
            ("A", &["a1", "a2"]),
            ("A\\B", &["ab"]),
            ("", &["root"]),
            ("X", &["x"]),
            ("A\\B\\C", &["abc"]),
        ],
    );
    let places = a.resolve_as_file(pool.intern_str("A\\B\\C")).unwrap();
    let seen: Vec<(String, Vec<String>)> =
        places.into_iter().map(|p| (p.root, p.parts)).collect();
    let part = |s: &str| s.to_string();
    assert_eq!(
        seen,
        vec![
            (part("abc"), vec![part("C.php")]),
            (part("ab"), vec![part("C.php")]),
            (part("a1"), vec![part("B"), part("C.php")]),
            (part("a2"), vec![part("B"), part("C.php")]),
            (part("root"), vec![part("A"), part("B"), part("C.php")]),
        ]
    );
}

#[test]
fn a_namespace_without_segments_is_too_short() {
    let mut pool = SegmentPool::new();
    let a = autoload(&mut pool, &[("A", &["a"])]);
    match a.resolve_as_file(PhpNamespace::empty()) {
        Err(ResolutionError::NamespaceTooShort(ns)) => assert_eq!(ns, PhpNamespace::empty()),
        other => panic!("{:?}", other),
    }
}

#[test]
fn a_namespace_under_no_root_is_not_found() {
    let mut pool = SegmentPool::new();
    let a = autoload(&mut pool, &[("A", &["a"]), ("B", &[])]);
    match a.resolve_as_file(pool.intern_str("C\\D\\E")) {
        Err(ResolutionError::NamespaceNotFound(ns)) => assert_eq!(ns, pool.intern_str("C\\D")),
        other => panic!("{:?}", other),
    }
    assert!(matches!(
        a.resolve_as_file(pool.intern_str("B\\E")),
        Err(ResolutionError::NamespaceNotFound(_))
    ));
}

#[test]
fn insert_replaces_the_directories_of_a_root() {
    let mut pool = SegmentPool::new();
    let mut a = autoload(&mut pool, &[("A\\", &["old"])]);
    a.insert(&mut pool, "\\A", vec!["new".to_string()]);
    assert_eq!(a.psr4.len(), 1);
    assert_eq!(a.psr4.get(&pool.intern_str("A")), Some(&vec!["new".to_string()]));
}

fn dirs(list: &[&str]) -> Vec<String> {
    list.iter().map(|d| d.to_string()).collect()
}

#[test]
fn no_autoload() {
    let mut pool = SegmentPool::new();
    assert_eq!(
        Autoload::from_entries(&mut pool, None).err(),
        Some(AutoloadError::NoAutoload)
    );
}

#[test]
fn no_psr4() {
    let mut pool = SegmentPool::new();
    assert_eq!(
        Autoload::from_entries(&mut pool, Some(None)).err(),
        Some(AutoloadError::NoPSR4)
    );
}

#[test]
fn kv() {
    let mut pool = SegmentPool::new();
    let entries = vec![
        ("Monolog\\".to_string(), dirs(&["src/"])),
        ("Vendor\\Namespace\\".to_string(), dirs(&["vendor/", "namespace/"])),
    ];
    let a = match Autoload::from_entries(&mut pool, Some(Some(entries))) {
        Ok(x) => x,
        Err(e) => panic!("{:?}", e),
    };

    assert_eq!(a.psr4.len(), 2);

    let monolog = pool.intern_str("Monolog\\");
    let vns = pool.intern_str("Vendor\\Namespace\\");

    assert!(a.psr4.contains_key(&monolog));
    assert!(a.psr4.contains_key(&vns));

    assert_eq!(a.psr4.get(&monolog).unwrap(), &dirs(&["src/"]));
    assert_eq!(a.psr4.get(&vns).unwrap(), &dirs(&["vendor/", "namespace/"]));
    assert_eq!(pool.0.len(), 3);
}

#[test]
fn extend_adds_directories_behind_the_known_ones() {
    let mut pool = SegmentPool::new();
    let mut a = autoload(&mut pool, &[("A\\", &["one"])]);
    a.extend(&mut pool, "\\A", dirs(&["two", "three"]));
    a.extend(&mut pool, "B", dirs(&["four"]));
    assert_eq!(a.psr4.len(), 2);
    assert_eq!(a.psr4.get(&pool.intern_str("A")).unwrap(), &dirs(&["one", "two", "three"]));
    assert_eq!(a.psr4.get(&pool.intern_str("B")).unwrap(), &dirs(&["four"]));
}

#[test]
fn a_later_entry_replaces_an_earlier_one() {
    let mut pool = SegmentPool::new();
    let entries = vec![
        ("A".to_string(), dirs(&["first"])),
        ("\\A\\".to_string(), dirs(&["second"])),
    ];
    let a = Autoload::from_entries(&mut pool, Some(Some(entries))).unwrap();
    assert_eq!(a.psr4.len(), 1);
    assert_eq!(a.psr4.get(&pool.intern_str("A")).unwrap(), &dirs(&["second"]));
}

#[test]
fn errors_say_what_went_wrong() {
    let mut pool = SegmentPool::new();
    assert_eq!(AutoloadError::NoAutoload.to_string(), "no autoload given");
    assert_eq!(AutoloadError::NoPSR4.to_string(), "no psr-4 in autoload");
    assert_eq!(
        ResolutionError::NamespaceNotFound(pool.intern_str("A\\B")).to_string(),
        "namespace `\\A\\B` not found"
    );
    assert_eq!(
        ResolutionError::NamespaceTooShort(PhpNamespace::empty()).to_string(),
        "namespace `\\` is too short"
    );
    assert_eq!(
        ResolutionError::FileNotFound("a.php".to_string()).to_string(),
        "file `a.php` not found"
    );
}
