use crate::php_namespace::PhpNamespace;
use crate::syntax::{Span, SyntaxNode};
use crate::names::NameMap;
use crate::php_namespace::views;
use crate::text::str_eq;
use vstd::prelude::*;
use vstd::std_specs::cmp::PartialEqSpecImpl;

verus! {

broadcast use vstd::std_specs::vec::axiom_vec_index_decreases;

/// A scalar type, or the type of one scalar value.
#[derive(Debug)]
pub enum Scalar {
    String,
    Integer,
    Float,
    Boolean,
    StringLiteral(String),
    IntegerLiteral(i64),
    /// The type of one floating-point value, given by its 64 bits.
    FloatLiteral(u64),
    BooleanLiteral(bool),
    Null,
}

/// A scalar type with its text as a sequence of characters.
pub enum ScalarView {
    String,
    Integer,
    Float,
    Boolean,
    StringLiteral(Seq<char>),
    IntegerLiteral(i64),
    FloatLiteral(u64),
    BooleanLiteral(bool),
    Null,
}

impl View for Scalar {
    type V = ScalarView;

    open spec fn view(&self) -> ScalarView {
        match self {
            Scalar::String => ScalarView::String,
            Scalar::Integer => ScalarView::Integer,
            Scalar::Float => ScalarView::Float,
            Scalar::Boolean => ScalarView::Boolean,
            Scalar::StringLiteral(s) => ScalarView::StringLiteral(s@),
            Scalar::IntegerLiteral(i) => ScalarView::IntegerLiteral(*i),
            Scalar::FloatLiteral(bits) => ScalarView::FloatLiteral(*bits),
            Scalar::BooleanLiteral(b) => ScalarView::BooleanLiteral(*b),
            Scalar::Null => ScalarView::Null,
        }
    }
}

impl Scalar {
    /// Whether two scalar types are the same.
    pub fn same_as(&self, other: &Scalar) -> (b: bool)
        ensures
            b == (self@ == other@),
    {
        match (self, other) {
            (Scalar::String, Scalar::String) => true,
            (Scalar::Integer, Scalar::Integer) => true,
            (Scalar::Float, Scalar::Float) => true,
            (Scalar::Boolean, Scalar::Boolean) => true,
            (Scalar::StringLiteral(a), Scalar::StringLiteral(b)) => str_eq(a.as_str(), b.as_str()),
            (Scalar::IntegerLiteral(a), Scalar::IntegerLiteral(b)) => *a == *b,
            (Scalar::FloatLiteral(a), Scalar::FloatLiteral(b)) => *a == *b,
            (Scalar::BooleanLiteral(a), Scalar::BooleanLiteral(b)) => *a == *b,
            (Scalar::Null, Scalar::Null) => true,
            _ => false,
        }
    }
}

impl Clone for Scalar {
    fn clone(&self) -> (r: Self)
        ensures
            r@ == self@,
    {
        match self {
            Scalar::String => Scalar::String,
            Scalar::Integer => Scalar::Integer,
            Scalar::Float => Scalar::Float,
            Scalar::Boolean => Scalar::Boolean,
            Scalar::StringLiteral(s) => Scalar::StringLiteral(s.clone()),
            Scalar::IntegerLiteral(i) => Scalar::IntegerLiteral(*i),
            Scalar::FloatLiteral(bits) => Scalar::FloatLiteral(*bits),
            Scalar::BooleanLiteral(b) => Scalar::BooleanLiteral(*b),
            Scalar::Null => Scalar::Null,
        }
    }
}

/// A type that is all of its members at once.
#[derive(Debug)]
pub struct Union(pub Vec<Type>);

/// A type that is any one of its members.
#[derive(Debug)]
pub struct Or(pub Vec<Type>);

/// A type that may also be null.
#[derive(Debug)]
pub struct Nullable(pub Box<Type>);

/// Why a type could not be read off a syntax tree.
#[derive(Debug)]
pub enum TypeError {
    NodeKindMismatch(&'static str, &'static str),
    NoProblems,
    NoName,
    ExpectedType,
    UnsupportedType(String),
}

/// An error with its texts as sequences of characters.
pub enum TypeErrorView {
    NodeKindMismatch(Seq<char>, Seq<char>),
    NoProblems,
    NoName,
    ExpectedType,
    UnsupportedType(Seq<char>),
}

impl View for TypeError {
    type V = TypeErrorView;

    open spec fn view(&self) -> TypeErrorView {
        match self {
            TypeError::NodeKindMismatch(a, b) => TypeErrorView::NodeKindMismatch(a@, b@),
            TypeError::NoProblems => TypeErrorView::NoProblems,
            TypeError::NoName => TypeErrorView::NoName,
            TypeError::ExpectedType => TypeErrorView::ExpectedType,
            TypeError::UnsupportedType(s) => TypeErrorView::UnsupportedType(s@),
        }
    }
}

/// A type as the language knows it.
#[derive(Debug)]
pub enum Type {
    CustomType(PhpNamespace),
    Scalar(Scalar),
    Array,
    Object,
    Callable,
    Any,
    Resource,
    Never,
    Void,
    Union(Union),
    Or(Or),
    Nullable(Nullable),
}

/// A type with its members as a sequence and its names as sequences of
/// characters.
pub enum TypeView {
    CustomType(Seq<Seq<char>>),
    Scalar(ScalarView),
    Array,
    Object,
    Callable,
    Any,
    Resource,
    Never,
    Void,
    Union(Seq<TypeView>),
    Or(Seq<TypeView>),
    Nullable(Box<TypeView>),
}

/// The views of a list of types.
pub open spec fn type_views(v: Vec<Type>) -> Seq<TypeView>
    decreases v,
{
    Seq::new(
        v@.len(),
        |i: int|
            if 0 <= i < v@.len() {
                type_view(v@[i])
            } else {
                TypeView::Any
            },
    )
}

/// The view of a type.
pub open spec fn type_view(t: Type) -> TypeView
    decreases t,
{
    match t {
        Type::CustomType(ns) => TypeView::CustomType(ns@),
        Type::Scalar(s) => TypeView::Scalar(s@),
        Type::Array => TypeView::Array,
        Type::Object => TypeView::Object,
        Type::Callable => TypeView::Callable,
        Type::Any => TypeView::Any,
        Type::Resource => TypeView::Resource,
        Type::Never => TypeView::Never,
        Type::Void => TypeView::Void,
        Type::Union(Union(v)) => TypeView::Union(type_views(v)),
        Type::Or(Or(v)) => TypeView::Or(type_views(v)),
        Type::Nullable(Nullable(b)) => TypeView::Nullable(Box::new(type_view(*b))),
    }
}

impl View for Type {
    type V = TypeView;

    open spec fn view(&self) -> TypeView {
        type_view(*self)
    }
}

/// The members of a union or of an alternative; no members for any other
/// type.
pub open spec fn members(t: TypeView) -> Seq<TypeView> {
    match t {
        TypeView::Union(xs) => xs,
        TypeView::Or(xs) => xs,
        _ => Seq::empty(),
    }
}

/// Whether `a == b`, as the types compare. Members of a union or of an
/// alternative may stand in any order: two such types are equal where they
/// have as many members and each member of the first is equalled by some
/// member of the second.
pub open spec fn same(a: TypeView, b: TypeView) -> bool
    decreases a, 2nat,
{
    match (a, b) {
        (TypeView::CustomType(x), TypeView::CustomType(y)) => x == y,
        (TypeView::Scalar(x), TypeView::Scalar(y)) => x == y,
        (TypeView::Array, TypeView::Array) => true,
        (TypeView::Object, TypeView::Object) => true,
        (TypeView::Callable, TypeView::Callable) => true,
        (TypeView::Any, TypeView::Any) => true,
        (TypeView::Resource, TypeView::Resource) => true,
        (TypeView::Never, TypeView::Never) => true,
        (TypeView::Void, TypeView::Void) => true,
        (TypeView::Union(xs), TypeView::Union(ys)) => xs.len() == ys.len() && forall|i: int|
            0 <= i < xs.len() ==> equalled_in(#[trigger] xs[i], ys),
        (TypeView::Or(xs), TypeView::Or(ys)) => xs.len() == ys.len() && forall|i: int|
            0 <= i < xs.len() ==> equalled_in(#[trigger] xs[i], ys),
        (TypeView::Nullable(x), TypeView::Nullable(y)) => same(*x, *y),
        _ => false,
    }
}

/// Whether some member `y` of `ys` has `y == x`.
pub open spec fn equalled_in(x: TypeView, ys: Seq<TypeView>) -> bool
    decreases x, 3nat,
{
    exists|j: int| 0 <= j < ys.len() && met_by(x, #[trigger] ys[j])
}

/// Whether `b == a`: the comparison of `same`, seen from its second side.
pub open spec fn met_by(a: TypeView, b: TypeView) -> bool
    decreases a, 2nat,
{
    match (a, b) {
        (TypeView::CustomType(x), TypeView::CustomType(y)) => x == y,
        (TypeView::Scalar(x), TypeView::Scalar(y)) => x == y,
        (TypeView::Array, TypeView::Array) => true,
        (TypeView::Object, TypeView::Object) => true,
        (TypeView::Callable, TypeView::Callable) => true,
        (TypeView::Any, TypeView::Any) => true,
        (TypeView::Resource, TypeView::Resource) => true,
        (TypeView::Never, TypeView::Never) => true,
        (TypeView::Void, TypeView::Void) => true,
        (TypeView::Union(xs), TypeView::Union(ys)) => xs.len() == ys.len() && forall|i: int|
            0 <= i < ys.len() ==> holds_equal(a, #[trigger] ys[i]),
        (TypeView::Or(xs), TypeView::Or(ys)) => xs.len() == ys.len() && forall|i: int|
            0 <= i < ys.len() ==> holds_equal(a, #[trigger] ys[i]),
        (TypeView::Nullable(x), TypeView::Nullable(y)) => met_by(*x, *y),
        _ => false,
    }
}

/// Whether some member `x` of `a` has `x == y`: what `contains` finds.
pub open spec fn holds_equal(a: TypeView, y: TypeView) -> bool
    decreases a, 1nat,
{
    match a {
        TypeView::Union(xs) => exists|j: int| 0 <= j < xs.len() && same(#[trigger] xs[j], y),
        TypeView::Or(xs) => exists|j: int| 0 <= j < xs.len() && same(#[trigger] xs[j], y),
        _ => false,
    }
}

/// Whether some member `x` of `xs` has `x == y`: what `contains` finds.
pub open spec fn contains_equal(xs: Seq<TypeView>, y: TypeView) -> bool {
    exists|j: int| 0 <= j < xs.len() && same(#[trigger] xs[j], y)
}


/// What a normalized member gives to the type around it: its own members
/// where it is of the same sort as that type, else itself.
pub open spec fn pieces(of_union: bool, n: TypeView) -> Seq<TypeView> {
    match n {
        TypeView::Union(more) => if of_union {
            more
        } else {
            seq![n]
        },
        TypeView::Or(more) => if of_union {
            seq![n]
        } else {
            more
        },
        _ => seq![n],
    }
}

/// `acc` with those of the first `n` of `xs` added, in order, that nothing
/// gathered so far equals.
pub open spec fn gathered(acc: Seq<TypeView>, xs: Seq<TypeView>, n: nat) -> Seq<TypeView>
    decreases n,
{
    if n == 0 || n > xs.len() {
        acc
    } else {
        let g = gathered(acc, xs, (n - 1) as nat);
        if contains_equal(g, xs[n - 1]) {
            g
        } else {
            g.push(xs[n - 1])
        }
    }
}

/// The members of the normal form of the union or alternative `t`, as far
/// as its first `n` members give them.
pub open spec fn flattened(t: TypeView, of_union: bool, n: nat) -> Seq<TypeView>
    decreases t, 1nat, n,
{
    if n == 0 || n > members(t).len() {
        Seq::empty()
    } else {
        let acc = flattened(t, of_union, (n - 1) as nat);
        let p = pieces(of_union, normal(members(t)[n - 1]));
        gathered(acc, p, p.len())
    }
}

/// The normal form of a type. A union or alternative of one member is that
/// member's normal form. Any other union or alternative holds the normal
/// forms of its members, those of the same sort dissolved into it, each kept
/// once. A nullable type is the alternative of null and its inner type.
pub open spec fn normal(t: TypeView) -> TypeView
    decreases t, 2nat, 0nat,
{
    match t {
        TypeView::Union(ts) => if ts.len() == 1 {
            normal(ts[0])
        } else {
            TypeView::Union(flattened(t, true, ts.len()))
        },
        TypeView::Or(ts) => if ts.len() == 1 {
            normal(ts[0])
        } else {
            TypeView::Or(flattened(t, false, ts.len()))
        },
        TypeView::Nullable(inner) => {
            let p = pieces(false, normal(*inner));
            TypeView::Or(gathered(seq![TypeView::Scalar(ScalarView::Null)], p, p.len()))
        },
        _ => t,
    }
}

/// Whether `a` is a subtype of `b`, both taken as normalized: equal types
/// are; an alternative is a subtype of an alternative that holds each of its
/// members, and any other type of an alternative that holds it. Where `b` is
/// no alternative the answer is whether `b` equals itself.
pub open spec fn subtype(a: TypeView, b: TypeView) -> bool {
    same(a, b) || match b {
        TypeView::Or(types) => match a {
            TypeView::Or(mine) => forall|i: int|
                0 <= i < mine.len() ==> contains_equal(types, #[trigger] mine[i]),
            _ => contains_equal(types, a),
        },
        _ => same(b, b),
    }
}

/// Whether some member of `xs` equals `y`.
fn holds(xs: &Vec<Type>, y: &Type) -> (b: bool)
    ensures
        b == contains_equal(type_views(*xs), y@),
    decreases xs, 0nat,
{
    let mut j: usize = 0;
    while j < xs.len()
        invariant
            j <= xs.len(),
            forall|k: int| 0 <= k < j ==> !same(#[trigger] type_views(*xs)[k], y@),
        decreases xs.len() - j,
    {
        if xs[j].same_as(y) {
            assert(same(type_views(*xs)[j as int], y@));
            return true;
        }
        j += 1;
    }
    false
}

/// Whether some member of `ys` is equalled by `x`.
fn equalled(x: &Type, ys: &Vec<Type>) -> (b: bool)
    ensures
        b == equalled_in(x@, type_views(*ys)),
    decreases x, 3nat,
{
    let mut j: usize = 0;
    while j < ys.len()
        invariant
            j <= ys.len(),
            forall|k: int| 0 <= k < j ==> !met_by(x@, #[trigger] type_views(*ys)[k]),
        decreases ys.len() - j,
    {
        if x.met_from(&ys[j]) {
            assert(met_by(x@, type_views(*ys)[j as int]));
            return true;
        }
        j += 1;
    }
    false
}

/// Whether each member of `xs` is equalled by some member of `ys`.
fn all_equalled(xs: &Vec<Type>, ys: &Vec<Type>) -> (b: bool)
    ensures
        b == (forall|i: int|
            0 <= i < xs@.len() ==> equalled_in(#[trigger] type_views(*xs)[i], type_views(*ys))),
    decreases xs, 0nat,
{
    let mut i: usize = 0;
    while i < xs.len()
        invariant
            i <= xs.len(),
            forall|k: int|
                0 <= k < i ==> equalled_in(#[trigger] type_views(*xs)[k], type_views(*ys)),
        decreases xs.len() - i,
    {
        if !equalled(&xs[i], ys) {
            assert(!equalled_in(type_views(*xs)[i as int], type_views(*ys)));
            return false;
        }
        i += 1;
    }
    true
}

/// Whether each member of `ys` equals some member of `xs`.
fn all_held(xs: &Vec<Type>, ys: &Vec<Type>) -> (b: bool)
    ensures
        b == (forall|i: int|
            0 <= i < ys@.len() ==> contains_equal(type_views(*xs), #[trigger] type_views(*ys)[i])),
    decreases xs, 1nat,
{
    let mut i: usize = 0;
    while i < ys.len()
        invariant
            i <= ys.len(),
            forall|k: int|
                0 <= k < i ==> contains_equal(type_views(*xs), #[trigger] type_views(*ys)[k]),
        decreases ys.len() - i,
    {
        if !holds(xs, &ys[i]) {
            assert(!contains_equal(type_views(*xs), type_views(*ys)[i as int]));
            return false;
        }
        i += 1;
    }
    true
}

impl Type {
    /// Whether `self == other`.
    pub fn same_as(&self, other: &Type) -> (b: bool)
        ensures
            b == same(self@, other@),
        decreases self, 2nat,
    {
        match self {
            Type::CustomType(x) => {
                let r = match other {
                    Type::CustomType(y) => x == y,
                    _ => false,
                };
                assert(r == same(self@, other@));
                r
            },
            Type::Scalar(x) => {
                let r = match other {
                    Type::Scalar(y) => x.same_as(y),
                    _ => false,
                };
                assert(r == same(self@, other@));
                r
            },
            Type::Array => {
                let r = match other {
                    Type::Array => true,
                    _ => false,
                };
                assert(r == same(self@, other@));
                r
            },
            Type::Object => {
                let r = match other {
                    Type::Object => true,
                    _ => false,
                };
                assert(r == same(self@, other@));
                r
            },
            Type::Callable => {
                let r = match other {
                    Type::Callable => true,
                    _ => false,
                };
                assert(r == same(self@, other@));
                r
            },
            Type::Any => {
                let r = match other {
                    Type::Any => true,
                    _ => false,
                };
                assert(r == same(self@, other@));
                r
            },
            Type::Resource => {
                let r = match other {
                    Type::Resource => true,
                    _ => false,
                };
                assert(r == same(self@, other@));
                r
            },
            Type::Never => {
                let r = match other {
                    Type::Never => true,
                    _ => false,
                };
                assert(r == same(self@, other@));
                r
            },
            Type::Void => {
                let r = match other {
                    Type::Void => true,
                    _ => false,
                };
                assert(r == same(self@, other@));
                r
            },
            Type::Union(Union(xs)) => {
                let r = match other {
                    Type::Union(Union(ys)) => {
                        proof {
                            let vx = type_views(*xs);
                            let vy = type_views(*ys);
                            assert(self@ == TypeView::Union(vx));
                            assert(other@ == TypeView::Union(vy));
                            assert(same(self@, other@) == (vx.len() == vy.len() && forall|i: int|
                                0 <= i < vx.len() ==> equalled_in(#[trigger] vx[i], vy)));
                        }
                        xs.len() == ys.len() && all_equalled(xs, ys)
                    },
                    _ => false,
                };
                assert(r == same(self@, other@));
                r
            },
            Type::Or(Or(xs)) => {
                let r = match other {
                    Type::Or(Or(ys)) => {
                        proof {
                            let vx = type_views(*xs);
                            let vy = type_views(*ys);
                            assert(self@ == TypeView::Or(vx));
                            assert(other@ == TypeView::Or(vy));
                            assert(same(self@, other@) == (vx.len() == vy.len() && forall|i: int|
                                0 <= i < vx.len() ==> equalled_in(#[trigger] vx[i], vy)));
                        }
                        xs.len() == ys.len() && all_equalled(xs, ys)
                    },
                    _ => false,
                };
                assert(r == same(self@, other@));
                r
            },
            Type::Nullable(Nullable(x)) => {
                let r = match other {
                    Type::Nullable(Nullable(y)) => x.same_as(y),
                    _ => false,
                };
                assert(r == same(self@, other@));
                r
            },
        }
    }

    /// Whether `other == self`.
    fn met_from(&self, other: &Type) -> (b: bool)
        ensures
            b == met_by(self@, other@),
        decreases self, 2nat,
    {
        match self {
            Type::CustomType(x) => {
                let r = match other {
                    Type::CustomType(y) => x == y,
                    _ => false,
                };
                assert(r == met_by(self@, other@));
                r
            },
            Type::Scalar(x) => {
                let r = match other {
                    Type::Scalar(y) => x.same_as(y),
                    _ => false,
                };
                assert(r == met_by(self@, other@));
                r
            },
            Type::Array => {
                let r = match other {
                    Type::Array => true,
                    _ => false,
                };
                assert(r == met_by(self@, other@));
                r
            },
            Type::Object => {
                let r = match other {
                    Type::Object => true,
                    _ => false,
                };
                assert(r == met_by(self@, other@));
                r
            },
            Type::Callable => {
                let r = match other {
                    Type::Callable => true,
                    _ => false,
                };
                assert(r == met_by(self@, other@));
                r
            },
            Type::Any => {
                let r = match other {
                    Type::Any => true,
                    _ => false,
                };
                assert(r == met_by(self@, other@));
                r
            },
            Type::Resource => {
                let r = match other {
                    Type::Resource => true,
                    _ => false,
                };
                assert(r == met_by(self@, other@));
                r
            },
            Type::Never => {
                let r = match other {
                    Type::Never => true,
                    _ => false,
                };
                assert(r == met_by(self@, other@));
                r
            },
            Type::Void => {
                let r = match other {
                    Type::Void => true,
                    _ => false,
                };
                assert(r == met_by(self@, other@));
                r
            },
            Type::Union(Union(xs)) => {
                let r = match other {
                    Type::Union(Union(ys)) => {
                        proof {
                            let vx = type_views(*xs);
                            let vy = type_views(*ys);
                            assert(self@ == TypeView::Union(vx));
                            assert(other@ == TypeView::Union(vy));
                            assert forall|i: int| 0 <= i < vy.len() implies (holds_equal(
                                self@,
                                #[trigger] vy[i],
                            ) == contains_equal(vx, vy[i])) by {}
                        }
                        xs.len() == ys.len() && all_held(xs, ys)
                    },
                    _ => false,
                };
                assert(r == met_by(self@, other@));
                r
            },
            Type::Or(Or(xs)) => {
                let r = match other {
                    Type::Or(Or(ys)) => {
                        proof {
                            let vx = type_views(*xs);
                            let vy = type_views(*ys);
                            assert(self@ == TypeView::Or(vx));
                            assert(other@ == TypeView::Or(vy));
                            assert forall|i: int| 0 <= i < vy.len() implies (holds_equal(
                                self@,
                                #[trigger] vy[i],
                            ) == contains_equal(vx, vy[i])) by {}
                        }
                        xs.len() == ys.len() && all_held(xs, ys)
                    },
                    _ => false,
                };
                assert(r == met_by(self@, other@));
                r
            },
            Type::Nullable(Nullable(x)) => {
                let r = match other {
                    Type::Nullable(Nullable(y)) => x.met_from(y),
                    _ => false,
                };
                assert(r == met_by(self@, other@));
                r
            },
        }
    }
}


/// A copy of each of `xs`.
fn clone_all(xs: &Vec<Type>) -> (r: Vec<Type>)
    ensures
        type_views(r) == type_views(*xs),
    decreases xs, 0nat,
{
    let mut out: Vec<Type> = Vec::new();
    let mut i: usize = 0;
    while i < xs.len()
        invariant
            i <= xs.len(),
            out@.len() == i,
            forall|k: int| 0 <= k < i ==> type_view(#[trigger] out@[k]) == type_view(xs@[k]),
        decreases xs.len() - i,
    {
        out.push(xs[i].clone());
        i += 1;
    }
    assert(type_views(out) =~= type_views(*xs));
    out
}

impl Clone for Type {
    fn clone(&self) -> (r: Self)
        ensures
            r@ == self@,
        decreases self, 1nat,
    {
        match self {
            Type::CustomType(ns) => Type::CustomType(ns.clone()),
            Type::Scalar(s) => Type::Scalar(s.clone()),
            Type::Array => Type::Array,
            Type::Object => Type::Object,
            Type::Callable => Type::Callable,
            Type::Any => Type::Any,
            Type::Resource => Type::Resource,
            Type::Never => Type::Never,
            Type::Void => Type::Void,
            Type::Union(Union(xs)) => Type::Union(Union(clone_all(xs))),
            Type::Or(Or(xs)) => Type::Or(Or(clone_all(xs))),
            Type::Nullable(Nullable(inner)) => {
                let copy: Type = (**inner).clone();
                Type::Nullable(Nullable(Box::new(copy)))
            },
        }
    }
}

impl PartialEq for Type {
    fn eq(&self, other: &Self) -> (b: bool) {
        self.same_as(other)
    }
}

impl PartialEqSpecImpl for Type {
    open spec fn obeys_eq_spec() -> bool {
        true
    }

    open spec fn eq_spec(&self, other: &Self) -> bool {
        same(self@, other@)
    }
}

/// Adds to `acc` those of `xs`, in order, that nothing gathered so far
/// equals.
fn gather(acc: &mut Vec<Type>, xs: &Vec<Type>)
    ensures
        type_views(*final(acc)) == gathered(type_views(*old(acc)), type_views(*xs), xs@.len()),
{
    let ghost start = type_views(*acc);
    let ghost vx = type_views(*xs);
    let mut i: usize = 0;
    while i < xs.len()
        invariant
            i <= xs.len(),
            vx == type_views(*xs),
            type_views(*acc) == gathered(start, vx, i as nat),
        decreases xs.len() - i,
    {
        let ghost before = type_views(*acc);
        if !holds(acc, &xs[i]) {
            let copy = xs[i].clone();
            acc.push(copy);
            assert(type_views(*acc) =~= before.push(vx[i as int]));
        }
        i += 1;
    }
}

/// Adds `x` to `acc` unless something in it equals `x`.
fn gather_one(acc: &mut Vec<Type>, x: Type)
    ensures
        type_views(*final(acc)) == gathered(type_views(*old(acc)), seq![x@], 1),
{
    let ghost before = type_views(*acc);
    assert(gathered(before, seq![x@], 0) == before);
    if !holds(acc, &x) {
        acc.push(x);
        assert(type_views(*acc) =~= before.push(x@));
    }
}

/// The members of the normal form of a union (`of_union`) or alternative
/// with the members `types`.
fn flatten(holder: &Type, types: &Vec<Type>, of_union: bool) -> (ts: Vec<Type>)
    requires
        members(holder@) == type_views(*types),
        holder is Union || holder is Or,
        match *holder {
            Type::Union(Union(v)) => v == *types,
            Type::Or(Or(v)) => v == *types,
            _ => false,
        },
    ensures
        type_views(ts) == flattened(holder@, of_union, types@.len()),
    decreases holder, 1nat,
{
    let mut ts: Vec<Type> = Vec::new();
    assert(type_views(ts) =~= Seq::<TypeView>::empty());
    let mut i: usize = 0;
    while i < types.len()
        invariant
            i <= types.len(),
            members(holder@) == type_views(*types),
            match *holder {
                Type::Union(Union(v)) => v == *types,
                Type::Or(Or(v)) => v == *types,
                _ => false,
            },
            type_views(ts) == flattened(holder@, of_union, i as nat),
        decreases types.len() - i,
    {
        let t = types[i].normalize();
        assert(t@ == normal(members(holder@)[i as int]));
        match t {
            Type::Union(Union(more)) => {
                if of_union {
                    gather(&mut ts, &more);
                } else {
                    gather_one(&mut ts, Type::Union(Union(more)));
                }
            },
            Type::Or(Or(more)) => {
                if of_union {
                    gather_one(&mut ts, Type::Or(Or(more)));
                } else {
                    gather(&mut ts, &more);
                }
            },
            other => {
                gather_one(&mut ts, other);
            },
        }
        i += 1;
    }
    ts
}

impl Type {
    /// Whether this type is a subtype of `other`; both are taken as
    /// normalized.
    pub fn is_subtype_of(&self, other: &Self) -> (b: bool)
        ensures
            b == subtype(self@, other@),
    {
        if self.same_as(other) {
            return true;
        }
        match other {
            Type::Or(Or(types)) => {
                assert(other@ == TypeView::Or(type_views(*types)));
                match self {
                    Type::Or(Or(my_types)) => {
                        assert(self@ == TypeView::Or(type_views(*my_types)));
                        let mut i: usize = 0;
                        while i < my_types.len()
                            invariant
                                i <= my_types.len(),
                                !same(self@, other@),
                                other@ == TypeView::Or(type_views(*types)),
                                self@ == TypeView::Or(type_views(*my_types)),
                                forall|k: int|
                                    0 <= k < i ==> contains_equal(
                                        type_views(*types),
                                        #[trigger] type_views(*my_types)[k],
                                    ),
                            decreases my_types.len() - i,
                        {
                            if !holds(types, &my_types[i]) {
                                assert(!contains_equal(
                                    type_views(*types),
                                    type_views(*my_types)[i as int],
                                ));
                                return false;
                            }
                            i += 1;
                        }
                        true
                    },
                    x => {
                        let r = holds(types, x);
                        assert(r == subtype(self@, other@));
                        r
                    },
                }
            },
            x => {
                let r = x.same_as(other);
                assert(r == subtype(self@, other@));
                r
            },
        }
    }

    /// The normal form of this type.
    pub fn normalize(&self) -> (r: Self)
        ensures
            r@ == normal(self@),
        decreases self, 2nat,
    {
        match self {
            Type::Union(Union(types)) => {
                assert(self@ == TypeView::Union(type_views(*types)));
                if types.len() == 1 {
                    let r = types[0].normalize();
                    assert(type_views(*types)[0] == types@[0]@);
                    assert(r@ == normal(self@));
                    return r;
                }
                let r = Type::Union(Union(flatten(self, types, true)));
                assert(r@ == normal(self@));
                r
            },
            Type::Or(Or(types)) => {
                assert(self@ == TypeView::Or(type_views(*types)));
                if types.len() == 1 {
                    let r = types[0].normalize();
                    assert(type_views(*types)[0] == types@[0]@);
                    assert(r@ == normal(self@));
                    return r;
                }
                let r = Type::Or(Or(flatten(self, types, false)));
                assert(r@ == normal(self@));
                r
            },
            Type::Nullable(Nullable(inner)) => {
                let mut ts: Vec<Type> = Vec::new();
                ts.push(Type::Scalar(Scalar::Null));
                assert(type_views(ts) =~= seq![TypeView::Scalar(ScalarView::Null)]);
                let n = inner.normalize();
                let ghost p = pieces(false, n@);
                match n {
                    Type::Or(Or(more)) => {
                        assert(p == type_views(more));
                        gather(&mut ts, &more);
                    },
                    other => {
                        assert(p == seq![other@]);
                        gather_one(&mut ts, other);
                    },
                }
                let r = Type::Or(Or(ts));
                assert(r@ == normal(self@));
                r
            },
            _ => {
                let r = self.clone();
                assert(r@ == normal(self@));
                r
            },
        }
    }
}


/// Who may reach a member.
#[derive(Clone, Copy, Debug, PartialEq, Eq, Structural)]
pub enum Visibility {
    Public,
    Protected,
    Private,
}

/// One parameter of a function or method.
#[derive(Debug)]
pub struct Argument {
    pub name: String,
    pub t: Type,
}

/// A method of a class, an interface, a trait or an enumeration.
#[derive(Debug)]
pub struct Method {
    pub name: String,
    pub arguments: Vec<Argument>,
    pub return_type: Type,
    pub visibility: Visibility,
    pub is_static: bool,
    pub is_abstract: bool,
}

/// A method with its texts as sequences of characters. The arguments are
/// left out: none is read from a declaration.
pub struct MethodView {
    pub name: Seq<char>,
    pub arguments: nat,
    pub return_type: TypeView,
    pub visibility: Visibility,
    pub is_static: bool,
    pub is_abstract: bool,
}

impl View for Method {
    type V = MethodView;

    open spec fn view(&self) -> MethodView {
        MethodView {
            name: self.name@,
            arguments: self.arguments@.len(),
            return_type: self.return_type@,
            visibility: self.visibility,
            is_static: self.is_static,
            is_abstract: self.is_abstract,
        }
    }
}

/// A property of a class or a trait.
#[derive(Debug)]
pub struct Property {
    pub name: String,
    pub t: Type,
    pub visibility: Visibility,
    pub is_static: bool,
}

/// A property with its texts as sequences of characters.
pub struct PropertyView {
    pub name: Seq<char>,
    pub t: TypeView,
    pub visibility: Visibility,
    pub is_static: bool,
}

impl View for Property {
    type V = PropertyView;

    open spec fn view(&self) -> PropertyView {
        PropertyView {
            name: self.name@,
            t: self.t@,
            visibility: self.visibility,
            is_static: self.is_static,
        }
    }
}

/// A function outside any class.
#[derive(Debug)]
pub struct Function {
    pub name: String,
    pub arguments: Vec<Argument>,
    pub return_type: Type,
}

/// A trait.
#[derive(Debug)]
pub struct Trait {
    pub name: String,
    pub constants: NameMap<Type>,
    pub properties: NameMap<Property>,
    pub methods: NameMap<Method>,
}

/// An interface.
#[derive(Debug)]
pub struct Interface {
    pub name: String,
    pub constants: NameMap<Type>,
    pub properties: NameMap<Property>,
    pub methods: NameMap<Method>,
    pub parent_interfaces: Vec<PhpNamespace>,
}

/// An enumeration.
#[derive(Debug)]
pub struct Enumeration {
    pub name: String,
    pub values: Vec<String>,
    pub constants: NameMap<Type>,
    pub methods: NameMap<Method>,
    pub implemented_interfaces: Vec<PhpNamespace>,
    pub traits_used: Vec<PhpNamespace>,
}

/// A class.
#[derive(Debug)]
pub struct Class {
    pub name: String,
    pub constants: NameMap<Type>,
    pub properties: NameMap<Property>,
    pub methods: NameMap<Method>,
    pub parent_classes: Vec<PhpNamespace>,
    pub traits_used: Vec<PhpNamespace>,
    pub implemented_interfaces: Vec<PhpNamespace>,
    pub readonly: bool,
    pub is_abstract: bool,
}

/// The namespaces of a list, each by its segments.
pub open spec fn namespace_views(v: Seq<PhpNamespace>) -> Seq<Seq<Seq<char>>> {
    v.map_values(|ns: PhpNamespace| ns@)
}

/// A class with its texts as sequences of characters and its members as
/// maps from their names.
pub struct ClassView {
    pub name: Seq<char>,
    pub constants: Map<Seq<char>, TypeView>,
    pub properties: Map<Seq<char>, PropertyView>,
    pub methods: Map<Seq<char>, MethodView>,
    pub parent_classes: Seq<Seq<Seq<char>>>,
    pub traits_used: Seq<Seq<Seq<char>>>,
    pub implemented_interfaces: Seq<Seq<Seq<char>>>,
    pub readonly: bool,
    pub is_abstract: bool,
}

impl View for Class {
    type V = ClassView;

    open spec fn view(&self) -> ClassView {
        ClassView {
            name: self.name@,
            constants: self.constants@.map_values(|t: Type| t@),
            properties: self.properties@.map_values(|p: Property| p@),
            methods: self.methods@.map_values(|m: Method| m@),
            parent_classes: namespace_views(self.parent_classes@),
            traits_used: namespace_views(self.traits_used@),
            implemented_interfaces: namespace_views(self.implemented_interfaces@),
            readonly: self.readonly,
            is_abstract: self.is_abstract,
        }
    }
}

/// The class that has nothing yet: no name, no member, no relative.
pub open spec fn blank_class() -> ClassView {
    ClassView {
        name: Seq::empty(),
        constants: Map::empty(),
        properties: Map::empty(),
        methods: Map::empty(),
        parent_classes: Seq::empty(),
        traits_used: Seq::empty(),
        implemented_interfaces: Seq::empty(),
        readonly: false,
        is_abstract: false,
    }
}

impl Default for Class {
    fn default() -> (r: Self)
        ensures
            r@ == blank_class(),
    {
        let r = Class {
            name: String::new(),
            constants: NameMap::new(),
            properties: NameMap::new(),
            methods: NameMap::new(),
            parent_classes: Vec::new(),
            traits_used: Vec::new(),
            implemented_interfaces: Vec::new(),
            readonly: false,
            is_abstract: false,
        };
        proof {
            assert(r@.constants =~= Map::empty());
            assert(r@.properties =~= Map::empty());
            assert(r@.methods =~= Map::empty());
            assert(r@.parent_classes =~= Seq::empty());
            assert(r@.traits_used =~= Seq::empty());
            assert(r@.implemented_interfaces =~= Seq::empty());
        }
        r
    }
}

/// A type that a program declares.
#[derive(Debug)]
pub enum CustomType {
    Class(Class),
    Interface(Interface),
    Enumeration(Enumeration),
    Function(Function),
    Trait(Trait),
}

/// A declared type with its documentation and the place of its declaration.
#[derive(Debug)]
pub struct CustomTypeMeta {
    pub t: CustomType,
    pub markup: Option<String>,
    pub src_range: Span,
}

/// A declared type; a class with its texts as sequences of characters.
pub enum CustomTypeView {
    Class(ClassView),
    Interface(Interface),
    Enumeration(Enumeration),
    Function(Function),
    Trait(Trait),
}

impl View for CustomType {
    type V = CustomTypeView;

    open spec fn view(&self) -> CustomTypeView {
        match self {
            CustomType::Class(c) => CustomTypeView::Class(c@),
            CustomType::Interface(i) => CustomTypeView::Interface(*i),
            CustomType::Enumeration(e) => CustomTypeView::Enumeration(*e),
            CustomType::Function(f) => CustomTypeView::Function(*f),
            CustomType::Trait(t) => CustomTypeView::Trait(*t),
        }
    }
}

/// A declared type with its documentation as a sequence of characters.
pub struct CustomTypeMetaView {
    pub t: CustomTypeView,
    pub markup: Option<Seq<char>>,
    pub src_range: Span,
}

impl View for CustomTypeMeta {
    type V = CustomTypeMetaView;

    open spec fn view(&self) -> CustomTypeMetaView {
        CustomTypeMetaView {
            t: self.t@,
            markup: match self.markup {
                Some(m) => Some(m@),
                None => None,
            },
            src_range: self.src_range,
        }
    }
}

/// An array type, by the types of its keys and of its values.
#[derive(Debug)]
pub struct Array {
    key: Type,
    value: Type,
}

impl Array {
    /// The type of its keys.
    pub closed spec fn key_view(&self) -> TypeView {
        self.key@
    }

    /// The type of its values.
    pub closed spec fn value_view(&self) -> TypeView {
        self.value@
    }

    /// The array type that maps `key` to `value`.
    pub fn map_with(key: Type, value: Type) -> (r: Self)
        ensures
            r.key_view() == key@,
            r.value_view() == value@,
    {
        Array { key, value }
    }

    /// The array type of a list of `t`, which has integers for keys.
    pub fn elements_with(t: Type) -> (r: Self)
        ensures
            r.key_view() == TypeView::Scalar(ScalarView::Integer),
            r.value_view() == t@,
    {
        Array { key: Type::Scalar(Scalar::Integer), value: t }
    }
}

/// The visibility that the modifier `text` spells.
pub open spec fn visibility_of(text: Option<Seq<char>>) -> Visibility {
    match text {
        Some(t) => if t == "protected"@ {
            Visibility::Protected
        } else if t == "private"@ {
            Visibility::Private
        } else {
            Visibility::Public
        },
        None => Visibility::Public,
    }
}

/// The type that the primitive type `text` names.
pub open spec fn primitive(text: Seq<char>) -> Result<TypeView, TypeErrorView> {
    if text == "int"@ {
        Ok(TypeView::Scalar(ScalarView::Integer))
    } else if text == "string"@ {
        Ok(TypeView::Scalar(ScalarView::String))
    } else if text == "bool"@ {
        Ok(TypeView::Scalar(ScalarView::Boolean))
    } else if text == "float"@ {
        Ok(TypeView::Scalar(ScalarView::Float))
    } else if text == "void"@ {
        Ok(TypeView::Void)
    } else if text == "false"@ {
        Ok(TypeView::Scalar(ScalarView::BooleanLiteral(false)))
    } else if text == "true"@ {
        Ok(TypeView::Scalar(ScalarView::BooleanLiteral(true)))
    } else if text == "null"@ {
        Ok(TypeView::Scalar(ScalarView::Null))
    } else if text == "array"@ {
        Ok(TypeView::Array)
    } else {
        Err(TypeErrorView::UnsupportedType(text))
    }
}

/// The type that the node `n` spells: a primitive type, or an optional type
/// around one. A node of any other kind is unsupported, by its kind; so is a
/// primitive type of an unknown name, by that name. A node without the text
/// or the inner type that it must have gives `ExpectedType`.
pub open spec fn type_of(n: SyntaxNode, content: Seq<char>) -> Result<TypeView, TypeErrorView>
    decreases n,
{
    if n.kind@ == "primitive_type"@ {
        match n.text_in(content) {
            Some(text) => primitive(text),
            None => Err(TypeErrorView::ExpectedType),
        }
    } else if n.kind@ == "optional_type"@ {
        match n.child_at(1) {
            Some(inner) => match type_of(inner, content) {
                Ok(t) => Ok(TypeView::Nullable(Box::new(t))),
                Err(e) => Err(e),
            },
            None => Err(TypeErrorView::ExpectedType),
        }
    } else {
        Err(TypeErrorView::UnsupportedType(n.kind@))
    }
}

/// Whether a result and its view agree.
pub open spec fn agrees<T: View, E: View>(r: Result<T, E>, v: Result<T::V, E::V>) -> bool {
    match (r, v) {
        (Ok(a), Ok(b)) => a@ == b,
        (Err(a), Err(b)) => a@ == b,
        _ => false,
    }
}

/// The visibility that the last visibility modifier among the first `k`
/// children of `n` gives; public where there is none.
pub open spec fn member_visibility(n: SyntaxNode, content: Seq<char>, k: nat) -> Visibility
    decreases k,
{
    if k == 0 || k > n.children@.len() {
        Visibility::Public
    } else if n.children@[k - 1].kind@ == "visibility_modifier"@ {
        visibility_of(n.children@[k - 1].text_in(content))
    } else {
        member_visibility(n, content, (k - 1) as nat)
    }
}

/// Whether one of the first `k` children of `n` is of the kind `kind`.
pub open spec fn has_modifier(n: SyntaxNode, kind: Seq<char>, k: nat) -> bool
    decreases k,
{
    if k == 0 || k > n.children@.len() {
        false
    } else {
        n.children@[k - 1].kind@ == kind || has_modifier(n, kind, (k - 1) as nat)
    }
}

/// The name that the last property element among the first `k` children of
/// `n` gives.
pub open spec fn property_name(n: SyntaxNode, content: Seq<char>, k: nat) -> Option<Seq<char>>
    decreases k,
{
    if k == 0 || k > n.children@.len() {
        None
    } else if n.children@[k - 1].kind@ == "property_element"@ {
        match n.children@[k - 1].field_child("name"@) {
            Some(name) => name.text_in(content),
            None => None,
        }
    } else {
        property_name(n, content, (k - 1) as nat)
    }
}

/// The property that the declaration `n` declares. It must have a type that
/// `type_of` can read, else the error is that of the type or, without a
/// type, `ExpectedType`; and it must have a name, else the error is
/// `NoName`.
pub open spec fn property_of(n: SyntaxNode, content: Seq<char>) -> Result<
    PropertyView,
    TypeErrorView,
> {
    let len = n.children@.len();
    match n.field_child("type"@) {
        None => Err(TypeErrorView::ExpectedType),
        Some(t) => match type_of(t, content) {
            Err(e) => Err(e),
            Ok(t) => match property_name(n, content, len) {
                None => Err(TypeErrorView::NoName),
                Some(name) => Ok(
                    PropertyView {
                        name,
                        t,
                        visibility: member_visibility(n, content, len),
                        is_static: has_modifier(n, "static_modifier"@, len),
                    },
                ),
            },
        },
    }
}

/// The return type that the method declaration `n` spells; `void` where it
/// spells none that `type_of` can read.
pub open spec fn return_type_of(n: SyntaxNode, content: Seq<char>) -> TypeView {
    match n.field_child("return_type"@) {
        Some(t) => match type_of(t, content) {
            Ok(t) => t,
            Err(_) => TypeView::Void,
        },
        None => TypeView::Void,
    }
}

/// The method that the declaration `n` declares; `NoName` where it has no
/// name.
pub open spec fn method_of(n: SyntaxNode, content: Seq<char>) -> Result<MethodView, TypeErrorView> {
    let len = n.children@.len();
    let name = match n.field_child("name"@) {
        Some(name) => name.text_in(content),
        None => None,
    };
    match name {
        Some(name) => Ok(
            MethodView {
                name,
                arguments: 0,
                return_type: return_type_of(n, content),
                visibility: member_visibility(n, content, len),
                is_static: has_modifier(n, "static_modifier"@, len),
                is_abstract: has_modifier(n, "abstract_modifier"@, len),
            },
        ),
        None => Err(TypeErrorView::NoName),
    }
}

/// What can be read off a node of a syntax tree.
pub trait FromNode: Sized {
    fn from_node(n: &SyntaxNode, content: &str) -> Result<Self, TypeError>;
}

impl FromNode for Visibility {
    fn from_node(n: &SyntaxNode, content: &str) -> (r: Result<Self, TypeError>)
        ensures
            r == Ok::<Visibility, TypeError>(visibility_of(n.text_in(content@))),
    {
        match n.text(content) {
            Some(text) => {
                if str_eq(text, "protected") {
                    Ok(Visibility::Protected)
                } else if str_eq(text, "private") {
                    Ok(Visibility::Private)
                } else {
                    Ok(Visibility::Public)
                }
            },
            None => Ok(Visibility::Public),
        }
    }
}

/// The visibility and the modifiers among the children of a declaration.
fn modifiers(n: &SyntaxNode, content: &str) -> (r: (Visibility, bool, bool))
    ensures
        r.0 == member_visibility(*n, content@, n.children@.len()),
        r.1 == has_modifier(*n, "static_modifier"@, n.children@.len()),
        r.2 == has_modifier(*n, "abstract_modifier"@, n.children@.len()),
{
    let mut visibility = Visibility::Public;
    let mut is_static = false;
    let mut is_abstract = false;
    let mut i: usize = 0;
    while i < n.children.len()
        invariant
            i <= n.children.len(),
            visibility == member_visibility(*n, content@, i as nat),
            is_static == has_modifier(*n, "static_modifier"@, i as nat),
            is_abstract == has_modifier(*n, "abstract_modifier"@, i as nat),
        decreases n.children.len() - i,
    {
        let child = &n.children[i];
        if child.is("visibility_modifier") {
            if let Ok(v) = Visibility::from_node(child, content) {
                visibility = v;
            }
        }
        if child.is("static_modifier") {
            is_static = true;
        }
        if child.is("abstract_modifier") {
            is_abstract = true;
        }
        i += 1;
    }
    (visibility, is_static, is_abstract)
}

impl FromNode for Type {
    fn from_node(n: &SyntaxNode, content: &str) -> (r: Result<Self, TypeError>)
        ensures
            agrees(r, type_of(*n, content@)),
        decreases n,
    {
        if n.is("primitive_type") {
            let t = match n.text(content) {
                Some(t) => t,
                None => {
                    return Err(TypeError::ExpectedType);
                },
            };
            if str_eq(t, "int") {
                Ok(Type::Scalar(Scalar::Integer))
            } else if str_eq(t, "string") {
                Ok(Type::Scalar(Scalar::String))
            } else if str_eq(t, "bool") {
                Ok(Type::Scalar(Scalar::Boolean))
            } else if str_eq(t, "float") {
                Ok(Type::Scalar(Scalar::Float))
            } else if str_eq(t, "void") {
                Ok(Type::Void)
            } else if str_eq(t, "false") {
                Ok(Type::Scalar(Scalar::BooleanLiteral(false)))
            } else if str_eq(t, "true") {
                Ok(Type::Scalar(Scalar::BooleanLiteral(true)))
            } else if str_eq(t, "null") {
                Ok(Type::Scalar(Scalar::Null))
            } else if str_eq(t, "array") {
                Ok(Type::Array)
            } else {
                Err(TypeError::UnsupportedType(t.to_owned()))
            }
        } else if n.is("optional_type") {
            match n.child(1) {
                Some(inner) => match Type::from_node(inner, content) {
                    Ok(inner_type) => Ok(Type::Nullable(Nullable(Box::new(inner_type)))),
                    Err(e) => Err(e),
                },
                None => Err(TypeError::ExpectedType),
            }
        } else {
            Err(TypeError::UnsupportedType(n.kind.clone()))
        }
    }
}

impl FromNode for Property {
    fn from_node(n: &SyntaxNode, content: &str) -> (r: Result<Self, TypeError>)
        ensures
            agrees(r, property_of(*n, content@)),
    {
        let (visibility, is_static, _) = modifiers(n, content);
        let mut name: Option<String> = None;
        let mut i: usize = 0;
        while i < n.children.len()
            invariant
                i <= n.children.len(),
                match name {
                    Some(s) => property_name(*n, content@, i as nat) == Some(s@),
                    None => property_name(*n, content@, i as nat) is None,
                },
            decreases n.children.len() - i,
        {
            let child = &n.children[i];
            if child.is("property_element") {
                name = match child.child_by_field_name("name") {
                    Some(name_node) => match name_node.text(content) {
                        Some(t) => Some(t.to_owned()),
                        None => None,
                    },
                    None => None,
                };
            }
            i += 1;
        }
        let t = match n.child_by_field_name("type") {
            Some(t) => match Type::from_node(t, content) {
                Ok(t) => t,
                Err(e) => {
                    return Err(e);
                },
            },
            None => {
                return Err(TypeError::ExpectedType);
            },
        };
        match name {
            Some(name) => Ok(Property { name, t, visibility, is_static }),
            None => Err(TypeError::NoName),
        }
    }
}

impl FromNode for Method {
    fn from_node(n: &SyntaxNode, content: &str) -> (r: Result<Self, TypeError>)
        ensures
            agrees(r, method_of(*n, content@)),
    {
        let (visibility, is_static, is_abstract) = modifiers(n, content);
        let name: Option<String> = match n.child_by_field_name("name") {
            Some(name_node) => match name_node.text(content) {
                Some(t) => Some(t.to_owned()),
                None => None,
            },
            None => None,
        };
        let return_type: Type = match n.child_by_field_name("return_type") {
            Some(t) => match Type::from_node(t, content) {
                Ok(t) => t,
                Err(_) => Type::Void,
            },
            None => Type::Void,
        };
        match name {
            Some(name) => Ok(
                Method {
                    name,
                    arguments: Vec::new(),
                    return_type,
                    visibility,
                    is_static,
                    is_abstract,
                },
            ),
            None => Err(TypeError::NoName),
        }
    }
}


/// A finite map from namespaces to values, kept in the order in which the
/// namespaces first arrived.
#[derive(Debug)]
pub struct NamespaceMap<V> {
    entries: Vec<(PhpNamespace, V)>,
}

impl<V> View for NamespaceMap<V> {
    type V = Map<Seq<Seq<char>>, V>;

    open spec fn view(&self) -> Map<Seq<Seq<char>>, V> {
        Map::new(
            |k: Seq<Seq<char>>| self.key_seq().contains(k),
            |k: Seq<Seq<char>>| self.value_seq()[self.key_seq().index_of(k)],
        )
    }
}

impl<V> NamespaceMap<V> {
    /// The namespaces held, in arrival order.
    pub closed spec fn key_seq(&self) -> Seq<Seq<Seq<char>>> {
        self.entries@.map_values(|e: (PhpNamespace, V)| e.0@)
    }

    /// The values held, each at the place of its namespace.
    pub closed spec fn value_seq(&self) -> Seq<V> {
        self.entries@.map_values(|e: (PhpNamespace, V)| e.1)
    }

    #[verifier::type_invariant]
    spec fn distinct(&self) -> bool {
        self.key_seq().no_duplicates()
    }

    /// Whether each namespace occurs once and stands beside its value in the map.
    pub open spec fn shaped(&self) -> bool {
        &&& self.key_seq().no_duplicates()
        &&& self.key_seq().len() == self.value_seq().len()
        &&& self@.dom().finite()
        &&& self@.dom() == self.key_seq().to_set()
        &&& self@.len() == self.key_seq().len()
        &&& forall|i: int|
            0 <= i < self.key_seq().len() ==> self@.contains_key(#[trigger] self.key_seq()[i])
                && self@[self.key_seq()[i]] == self.value_seq()[i]
    }

    proof fn lemma_shape(&self)
        requires
            self.distinct(),
        ensures
            self.shaped(),
    {
        let ks = self.key_seq();
        assert(self@.dom() =~= ks.to_set());
        ks.unique_seq_to_set();
        assert forall|i: int| 0 <= i < ks.len() implies self@.contains_key(#[trigger] ks[i])
            && self@[ks[i]] == self.value_seq()[i] by {
            ks.index_of_first_ensures(ks[i]);
            let j = ks.index_of(ks[i]);
            assert(0 <= j < ks.len() && ks[j] == ks[i]);
        }
    }

    /// The map without any namespace.
    pub fn new() -> (r: Self)
        ensures
            r@ == Map::<Seq<Seq<char>>, V>::empty(),
            r.key_seq() == Seq::<Seq<Seq<char>>>::empty(),
    {
        let r = NamespaceMap { entries: Vec::new() };
        assert(r.key_seq() =~= Seq::<Seq<Seq<char>>>::empty());
        assert(r@ =~= Map::<Seq<Seq<char>>, V>::empty());
        r
    }

    /// How many namespaces the map holds.
    pub fn len(&self) -> (n: usize)
        ensures
            n == self@.len(),
            n == self.key_seq().len(),
            self.shaped(),
    {
        proof {
            use_type_invariant(self);
            self.lemma_shape();
        }
        self.entries.len()
    }

    /// Where `name` stands in the arrival order, if the map holds it.
    fn position(&self, name: &PhpNamespace) -> (r: Option<usize>)
        ensures
            self.shaped(),
            match r {
                Some(i) => i < self.key_seq().len() && self.key_seq()[i as int] == name@
                    && self@.contains_key(name@) && self@[name@] == self.value_seq()[i as int],
                None => !self@.contains_key(name@),
            },
    {
        proof {
            use_type_invariant(self);
            self.lemma_shape();
        }
        let mut i: usize = 0;
        while i < self.entries.len()
            invariant
                i <= self.entries.len(),
                self.shaped(),
                self.key_seq().len() == self.entries@.len(),
                forall|j: int| 0 <= j < i ==> self.key_seq()[j] != name@,
            decreases self.entries.len() - i,
        {
            assert(self.key_seq()[i as int] == self.entries@[i as int].0@);
            if self.entries[i].0.is_same(name) {
                assert(self@.contains_key(self.key_seq()[i as int]));
                return Some(i);
            }
            i += 1;
        }
        None
    }

    /// Whether the map holds `name`.
    pub fn contains_key(&self, name: &PhpNamespace) -> (b: bool)
        ensures
            b == self@.contains_key(name@),
    {
        self.position(name).is_some()
    }

    /// The value under `name`, if the map holds it.
    pub fn get(&self, name: &PhpNamespace) -> (r: Option<&V>)
        ensures
            match r {
                Some(v) => self@.contains_key(name@) && *v == self@[name@],
                None => !self@.contains_key(name@),
            },
    {
        match self.position(name) {
            Some(i) => Some(&self.entries[i].1),
            None => None,
        }
    }

    /// The namespace at place `i` of the arrival order.
    pub fn key_at(&self, i: usize) -> (k: &PhpNamespace)
        requires
            i < self.key_seq().len(),
        ensures
            k@ == self.key_seq()[i as int],
    {
        &self.entries[i].0
    }

    /// The value at place `i` of the arrival order.
    pub fn value_at(&self, i: usize) -> (v: &V)
        requires
            i < self.key_seq().len(),
        ensures
            *v == self.value_seq()[i as int],
    {
        &self.entries[i].1
    }

    /// Puts `value` under `name`, in place of any value held there before.
    pub fn insert(&mut self, name: PhpNamespace, value: V)
        ensures
            final(self)@ == old(self)@.insert(name@, value),
            final(self).key_seq() == if old(self)@.contains_key(name@) {
                old(self).key_seq()
            } else {
                old(self).key_seq().push(name@)
            },
    {
        let ghost ks = self.key_seq();
        let ghost vs = self.value_seq();
        let ghost before = self@;
        let ghost n = name@;
        let found = self.position(&name);
        let mut entries: Vec<(PhpNamespace, V)> = Vec::new();
        core::mem::swap(&mut self.entries, &mut entries);
        match found {
            Some(i) => {
                entries.set(i, (name, value));
                proof {
                    let after = entries@.map_values(|e: (PhpNamespace, V)| e.0@);
                    assert(after =~= ks);
                }
                self.entries = entries;
                proof {
                    assert(self.key_seq() == ks);
                    assert(self.value_seq() =~= vs.update(i as int, value));
                    assert forall|k: Seq<Seq<char>>| before.insert(n, value).contains_key(k) implies
                        self@.contains_key(k) && self@[k] == before.insert(n, value)[k] by {
                        ks.index_of_first_ensures(k);
                        ks.index_of_first_ensures(n);
                    }
                    assert(self@ =~= before.insert(n, value));
                }
            },
            None => {
                entries.push((name, value));
                proof {
                    let after = entries@.map_values(|e: (PhpNamespace, V)| e.0@);
                    assert(after =~= ks.push(n));
                    assert(!ks.contains(n));
                    assert forall|a: int, b: int|
                        0 <= a < after.len() && 0 <= b < after.len() && a != b implies after[a]
                        != after[b] by {
                        if a < ks.len() && b < ks.len() {
                            assert(ks[a] != ks[b]);
                        } else if a < ks.len() {
                            assert(ks.contains(ks[a]));
                        } else {
                            assert(ks.contains(ks[b]));
                        }
                    }
                }
                self.entries = entries;
                proof {
                    let ks2 = self.key_seq();
                    let vs2 = self.value_seq();
                    assert(ks2 =~= ks.push(n));
                    assert(vs2 =~= vs.push(value));
                    assert(ks2.no_duplicates());
                    assert forall|k: Seq<Seq<char>>| before.insert(n, value).contains_key(k) implies
                        self@.contains_key(k) && self@[k] == before.insert(n, value)[k] by {
                        if k == n {
                            assert(ks2[ks.len() as int] == n);
                            ks2.index_of_first_ensures(k);
                            let j2 = ks2.index_of(k);
                            assert(ks2[j2] == k);
                            assert(j2 == ks.len());
                        } else {
                            ks.index_of_first_ensures(k);
                            let j = ks.index_of(k);
                            assert(ks[j] == k);
                            assert(ks2[j] == k);
                            ks2.index_of_first_ensures(k);
                            let j2 = ks2.index_of(k);
                            assert(ks2[j2] == k);
                            assert(j2 == j);
                            assert(vs2[j] == vs[j]);
                        }
                    }
                    assert forall|k: Seq<Seq<char>>|
                        self@.dom().contains(k) <==> before.insert(n, value).dom().contains(
                            k,
                        ) by {
                        if ks2.contains(k) {
                            let j = choose|j: int| 0 <= j < ks2.len() && ks2[j] == k;
                            if j < ks.len() {
                                assert(ks[j] == k);
                                assert(ks.contains(k));
                            }
                        }
                        if ks.contains(k) {
                            let j = choose|j: int| 0 <= j < ks.len() && ks[j] == k;
                            assert(ks2[j] == k);
                            assert(ks2.contains(k));
                        }
                        if k == n {
                            assert(ks2[ks.len() as int] == n);
                            assert(ks2.contains(k));
                        }
                    }
                    assert(self@.dom() =~= before.insert(n, value).dom());
                    assert(self@ =~= before.insert(n, value));
                }
            },
        }
    }
}


/// The declared types of a session, each under its fully qualified name.
#[derive(Debug)]
pub struct CustomTypesDatabase(pub NamespaceMap<CustomTypeMeta>);

impl View for CustomTypesDatabase {
    type V = Map<Seq<Seq<char>>, CustomTypeMeta>;

    open spec fn view(&self) -> Map<Seq<Seq<char>>, CustomTypeMeta> {
        self.0@
    }
}

impl CustomTypesDatabase {
    /// What the database records under each name.
    pub open spec fn records(&self) -> Map<Seq<Seq<char>>, CustomTypeMetaView> {
        self.0@.map_values(|m: CustomTypeMeta| m@)
    }

    /// The database without any type.
    pub fn new() -> (r: Self)
        ensures
            r@ == Map::<Seq<Seq<char>>, CustomTypeMeta>::empty(),
            r.records() == Map::<Seq<Seq<char>>, CustomTypeMetaView>::empty(),
    {
        let r = CustomTypesDatabase(NamespaceMap::new());
        assert(r.records() =~= Map::<Seq<Seq<char>>, CustomTypeMetaView>::empty());
        r
    }
}

} // verus!
