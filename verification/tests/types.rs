use phplsp::php_namespace::SegmentPool;
use phplsp::types::{Array, Nullable, Or, Scalar, Type, Union};

fn nullable(t: Type) -> Type {
    Type::Nullable(Nullable(Box::new(t)))
}

fn union(ts: Vec<Type>) -> Type {
    Type::Union(Union(ts))
}

fn or(ts: Vec<Type>) -> Type {
    Type::Or(Or(ts))
}

fn integer() -> Type {
    Type::Scalar(Scalar::Integer)
}

fn float() -> Type {
    Type::Scalar(Scalar::Float)
}

fn boolean() -> Type {
    Type::Scalar(Scalar::Boolean)
}

fn null() -> Type {
    Type::Scalar(Scalar::Null)
}

#[test]
fn nullable_eq() {
    let a = nullable(integer());
    let b = or(vec![null(), integer()]);
    assert_ne!(a, b);
    assert_eq!(a.normalize(), b);
    assert_eq!(a.normalize(), b.normalize());
}

#[test]
fn nested_normalization() {
    let a = nullable(or(vec![or(vec![integer(), float(), null()]), boolean()]));
    assert_eq!(
        a.normalize(),
        or(vec![integer(), float(), null(), boolean()])
    );
    let b = union(vec![union(vec![integer(), float(), null(), null()]), boolean()]);
    assert_eq!(
        b.normalize(),
        union(vec![integer(), float(), null(), boolean()])
    );
}

#[test]
fn one_element_norm() {
    let a = or(vec![or(vec![or(vec![integer()])])]);
    assert_eq!(a.normalize(), integer());
    let a = union(vec![union(vec![or(vec![union(vec![integer()])])])]);
    assert_eq!(a.normalize(), integer());
}

#[test]
fn is_subtype_of() {
    let parent = nullable(or(vec![or(vec![integer(), float(), null()]), boolean()])).normalize();
    let children = [
        or(vec![integer(), float(), null(), boolean()]),
        float(),
        integer(),
        null(),
        or(vec![boolean(), float()]),
        or(vec![boolean(), float(), or(vec![null()])]),
    ];

    for child in children {
        let child = child.normalize();
        assert!(child.is_subtype_of(&parent));
    }
}

#[test]
fn normalization_keeps_the_order_of_first_arrival() {
    let a = nullable(or(vec![or(vec![integer(), float(), null()]), boolean()])).normalize();
    match a {
        Type::Or(Or(members)) => {
            assert_eq!(members.len(), 4);
            assert!(members[0].same_as(&null()));
            assert!(members[1].same_as(&integer()));
            assert!(members[2].same_as(&float()));
            assert!(members[3].same_as(&boolean()));
        }
        other => panic!("{:?}", other),
    }
}

#[test]
fn normalizing_twice_changes_nothing_more() {
    let samples = [
        nullable(integer()),
        or(vec![integer(), union(vec![float(), boolean()])]),
        union(vec![or(vec![integer(), float()]), null()]),
        or(vec![]),
        Type::Array,
        nullable(nullable(boolean())),
    ];
    for sample in samples {
        let once = sample.normalize();
        let twice = once.normalize();
        assert_eq!(once, twice);
        assert_eq!(format!("{:?}", once), format!("{:?}", twice));
    }
}

#[test]
fn a_member_kept_once_may_leave_a_list_of_one() {
    let once = or(vec![integer(), integer()]).normalize();
    match &once {
        Type::Or(Or(members)) => assert_eq!(members.len(), 1),
        other => panic!("{:?}", other),
    }
    assert_eq!(once.normalize(), integer());
}

#[test]
fn nullable_of_null_is_an_alternative_of_null_alone() {
    let n = nullable(null()).normalize();
    match n {
        Type::Or(Or(members)) => {
            assert_eq!(members.len(), 1);
            assert!(members[0].same_as(&null()));
        }
        other => panic!("{:?}", other),
    }
}

#[test]
fn members_compare_in_any_order() {
    assert_eq!(or(vec![integer(), float()]), or(vec![float(), integer()]));
    assert_ne!(or(vec![integer(), float()]), union(vec![integer(), float()]));
    assert_ne!(or(vec![integer(), float()]), or(vec![integer()]));
    assert_eq!(or(vec![integer(), integer()]), or(vec![integer(), float()]));
    assert_ne!(or(vec![integer(), float()]), or(vec![integer(), integer()]));
}

#[test]
fn scalars_and_custom_types_compare_by_value() {
    let mut pool = SegmentPool::new();
    assert_eq!(
        Type::CustomType(pool.intern_str("A\\B")),
        Type::CustomType(pool.intern_str("\\A\\B\\"))
    );
    assert_ne!(
        Type::CustomType(pool.intern_str("A\\B")),
        Type::CustomType(pool.intern_str("A"))
    );
    assert_eq!(
        Type::Scalar(Scalar::StringLiteral("x".to_string())),
        Type::Scalar(Scalar::StringLiteral("x".to_string()))
    );
    assert_ne!(
        Type::Scalar(Scalar::IntegerLiteral(1)),
        Type::Scalar(Scalar::IntegerLiteral(2))
    );
    assert_ne!(
        Type::Scalar(Scalar::FloatLiteral(1)),
        Type::Scalar(Scalar::BooleanLiteral(true))
    );
    assert_eq!(Type::Void.clone(), Type::Void);
}

#[test]
fn every_type_is_a_subtype_of_a_type_that_is_no_alternative() {
    assert!(integer().is_subtype_of(&integer()));
    assert!(integer().is_subtype_of(&float()));
    assert!(!integer().is_subtype_of(&or(vec![float(), boolean()])));
    assert!(!or(vec![integer(), float()]).is_subtype_of(&or(vec![float(), boolean()])));
}

#[test]
fn arrays_are_made_from_their_parts() {
    let _ = Array::map_with(integer(), float());
    let _ = Array::elements_with(boolean());
}
