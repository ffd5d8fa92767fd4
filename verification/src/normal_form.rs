use crate::types::{
    contains_equal, equalled_in, flattened, gathered, holds_equal, members, met_by, normal, pieces,
    same, subtype, ScalarView, TypeView,
};
use vstd::prelude::*;

verus! {

/// Whether a type is of the sort that dissolves into a union (`of_union`)
/// or into an alternative.
pub open spec fn dissolves(of_union: bool, t: TypeView) -> bool {
    if of_union {
        t is Union
    } else {
        t is Or
    }
}

/// Whether no member of `xs` is equalled by a member before it.
pub open spec fn distinct(xs: Seq<TypeView>) -> bool {
    forall|i: int| 0 <= i < xs.len() ==> !contains_equal(xs.take(i), #[trigger] xs[i])
}

/// Whether a type has the shape that normalizing leaves: no nullable type
/// in it, and in each union and alternative no member of the same sort and
/// no member twice.
pub open spec fn flat(t: TypeView) -> bool
    decreases t,
{
    match t {
        TypeView::Union(xs) => distinct(xs) && forall|i: int|
            0 <= i < xs.len() ==> !((#[trigger] xs[i]) is Union) && flat(xs[i]),
        TypeView::Or(xs) => distinct(xs) && forall|i: int|
            0 <= i < xs.len() ==> !((#[trigger] xs[i]) is Or) && flat(xs[i]),
        TypeView::Nullable(_) => false,
        _ => true,
    }
}

/// Whether no union and no alternative in a type has exactly one member.
pub open spec fn proper(t: TypeView) -> bool
    decreases t,
{
    match t {
        TypeView::Union(xs) => xs.len() != 1 && forall|i: int|
            0 <= i < xs.len() ==> proper(#[trigger] xs[i]),
        TypeView::Or(xs) => xs.len() != 1 && forall|i: int|
            0 <= i < xs.len() ==> proper(#[trigger] xs[i]),
        TypeView::Nullable(inner) => proper(*inner),
        _ => true,
    }
}

/// Whether each of `xs` is flat and of the other sort than `of_union`
/// names.
pub open spec fn fit_members(of_union: bool, xs: Seq<TypeView>) -> bool {
    forall|i: int| 0 <= i < xs.len() ==> !dissolves(of_union, #[trigger] xs[i]) && flat(xs[i])
}

/// Gathering fit and distinct members into fit and distinct members leaves
/// fit and distinct members.
pub proof fn lemma_gathered_fit(of_union: bool, acc: Seq<TypeView>, xs: Seq<TypeView>, n: nat)
    requires
        n <= xs.len(),
        fit_members(of_union, acc),
        fit_members(of_union, xs),
        distinct(acc),
    ensures
        fit_members(of_union, gathered(acc, xs, n)),
        distinct(gathered(acc, xs, n)),
    decreases n,
{
    if n > 0 {
        lemma_gathered_fit(of_union, acc, xs, (n - 1) as nat);
        let g = gathered(acc, xs, (n - 1) as nat);
        let x = xs[n - 1];
        if !contains_equal(g, x) {
            let h = g.push(x);
            assert forall|i: int| 0 <= i < h.len() implies !contains_equal(
                h.take(i),
                #[trigger] h[i],
            ) by {
                if i < g.len() {
                    assert(h.take(i) =~= g.take(i));
                } else {
                    assert(h.take(i) =~= g);
                }
            }
        }
    }
}

/// The pieces that a flat type gives are fit members.
pub proof fn lemma_pieces_fit(of_union: bool, n: TypeView)
    requires
        flat(n),
    ensures
        fit_members(of_union, pieces(of_union, n)),
{
    let p = pieces(of_union, n);
    assert forall|i: int| 0 <= i < p.len() implies !dissolves(of_union, #[trigger] p[i]) && flat(
        p[i],
    ) by {
        match n {
            TypeView::Union(more) => {
                if of_union {
                    assert(!(more[i] is Union) && flat(more[i]));
                }
            },
            TypeView::Or(more) => {
                if !of_union {
                    assert(!(more[i] is Or) && flat(more[i]));
                }
            },
            _ => {},
        }
    }
}

/// What is flattened out of a union or an alternative are fit and distinct
/// members.
pub proof fn lemma_flattened_fit(t: TypeView, of_union: bool, n: nat)
    requires
        n <= members(t).len(),
    ensures
        fit_members(of_union, flattened(t, of_union, n)),
        distinct(flattened(t, of_union, n)),
    decreases t, 1nat, n,
{
    if n > 0 {
        lemma_flattened_fit(t, of_union, (n - 1) as nat);
        let acc = flattened(t, of_union, (n - 1) as nat);
        lemma_normal_is_flat(members(t)[n - 1]);
        let p = pieces(of_union, normal(members(t)[n - 1]));
        lemma_pieces_fit(of_union, normal(members(t)[n - 1]));
        lemma_gathered_fit(of_union, acc, p, p.len());
    }
}

/// The normal form of every type is flat.
pub proof fn lemma_normal_is_flat(t: TypeView)
    ensures
        flat(normal(t)),
    decreases t, 2nat, 0nat,
{
    match t {
        TypeView::Union(ts) => {
            if ts.len() == 1 {
                lemma_normal_is_flat(ts[0]);
            } else {
                lemma_flattened_fit(t, true, ts.len());
                let xs = flattened(t, true, ts.len());
                assert forall|i: int| 0 <= i < xs.len() implies !((#[trigger] xs[i]) is Union)
                    && flat(xs[i]) by {
                    assert(!dissolves(true, xs[i]));
                }
            }
        },
        TypeView::Or(ts) => {
            if ts.len() == 1 {
                lemma_normal_is_flat(ts[0]);
            } else {
                lemma_flattened_fit(t, false, ts.len());
                let xs = flattened(t, false, ts.len());
                assert forall|i: int| 0 <= i < xs.len() implies !((#[trigger] xs[i]) is Or)
                    && flat(xs[i]) by {
                    assert(!dissolves(false, xs[i]));
                }
            }
        },
        TypeView::Nullable(inner) => {
            lemma_normal_is_flat(*inner);
            let p = pieces(false, normal(*inner));
            lemma_pieces_fit(false, normal(*inner));
            let start = seq![TypeView::Scalar(ScalarView::Null)];
            assert(distinct(start)) by {
                assert forall|i: int| 0 <= i < start.len() implies !contains_equal(
                    start.take(i),
                    #[trigger] start[i],
                ) by {
                    assert(start.take(0).len() == 0);
                }
            }
            lemma_gathered_fit(false, start, p, p.len());
            let xs = gathered(start, p, p.len());
            assert forall|i: int| 0 <= i < xs.len() implies !((#[trigger] xs[i]) is Or) && flat(
                xs[i],
            ) by {
                assert(!dissolves(false, xs[i]));
            }
        },
        _ => {},
    }
}

/// Flattening a union or alternative whose members are in normal form, of
/// the other sort and distinct gives its members back.
pub proof fn lemma_flattened_same(t: TypeView, of_union: bool, n: nat)
    requires
        n <= members(t).len(),
        t is Union || t is Or,
        dissolves(of_union, t),
        flat(t),
        proper(t),
    ensures
        flattened(t, of_union, n) == members(t).take(n as int),
    decreases t, 1nat, n,
{
    let xs = members(t);
    if n > 0 {
        lemma_flattened_same(t, of_union, (n - 1) as nat);
        let x = xs[n - 1];
        assert(flat(x) && proper(x) && !dissolves(of_union, x));
        lemma_flat_is_normal(x);
        let p = pieces(of_union, x);
        assert(p == seq![x]);
        let acc = xs.take(n - 1);
        assert(!contains_equal(acc, x));
        assert(gathered(acc, p, 0) == acc);
        assert(gathered(acc, p, 1) == acc.push(x));
        assert(acc.push(x) =~= xs.take(n as int));
    } else {
        assert(xs.take(0) =~= Seq::<TypeView>::empty());
    }
}

/// A type of the shape that normalizing leaves, without a union or an
/// alternative of one member, is its own normal form.
pub proof fn lemma_flat_is_normal(t: TypeView)
    requires
        flat(t),
        proper(t),
    ensures
        normal(t) == t,
    decreases t, 2nat, 0nat,
{
    match t {
        TypeView::Union(ts) => {
            lemma_flattened_same(t, true, ts.len());
            assert(ts.take(ts.len() as int) =~= ts);
        },
        TypeView::Or(ts) => {
            lemma_flattened_same(t, false, ts.len());
            assert(ts.take(ts.len() as int) =~= ts);
        },
        _ => {},
    }
}

/// Normalizing a normalized type returns it unchanged, as long as the
/// normalized type holds no union and no alternative of exactly one member.
pub proof fn lemma_normal_is_fixed_point(t: TypeView)
    requires
        proper(normal(t)),
    ensures
        normal(normal(t)) == normal(t),
{
    lemma_normal_is_flat(t);
    lemma_flat_is_normal(normal(t));
}

/// Whether `xs` holds `x` or a type that equals it.
pub open spec fn holds_like(xs: Seq<TypeView>, x: TypeView) -> bool {
    xs.contains(x) || contains_equal(xs, x)
}

/// What was gathered holds each of the gathered, or an equal of it, and
/// everything it began with.
pub proof fn lemma_gathered_holds(acc: Seq<TypeView>, xs: Seq<TypeView>, n: nat)
    requires
        n <= xs.len(),
    ensures
        forall|i: int| 0 <= i < n ==> holds_like(gathered(acc, xs, n), #[trigger] xs[i]),
        forall|j: int| 0 <= j < acc.len() ==> gathered(acc, xs, n)[j] == acc[j],
        acc.len() <= gathered(acc, xs, n).len(),
    decreases n,
{
    if n > 0 {
        lemma_gathered_holds(acc, xs, (n - 1) as nat);
        let g = gathered(acc, xs, (n - 1) as nat);
        let r = gathered(acc, xs, n);
        let x = xs[n - 1];
        assert forall|i: int| 0 <= i < n implies holds_like(r, #[trigger] xs[i]) by {
            if i < n - 1 {
                assert(holds_like(g, xs[i]));
                if g.contains(xs[i]) {
                    let j = choose|j: int| 0 <= j < g.len() && g[j] == xs[i];
                    assert(r[j] == xs[i]);
                } else {
                    let j = choose|j: int| 0 <= j < g.len() && same(#[trigger] g[j], xs[i]);
                    assert(same(r[j], xs[i]));
                }
            } else {
                if contains_equal(g, x) {
                } else {
                    assert(r[g.len() as int] == x);
                }
            }
        }
    }
}

/// A nullable type always normalizes to an alternative that begins with
/// null and holds the normal form of the inner type, or, where that is an
/// alternative itself, each of its members; each possibly through an equal.
pub proof fn lemma_nullable_normal(inner: TypeView)
    ensures
        normal(TypeView::Nullable(Box::new(inner))) is Or,
        members(normal(TypeView::Nullable(Box::new(inner)))).len() > 0,
        members(normal(TypeView::Nullable(Box::new(inner))))[0] == TypeView::Scalar(
            ScalarView::Null,
        ),
        forall|i: int|
            0 <= i < pieces(false, normal(inner)).len() ==> holds_like(
                members(normal(TypeView::Nullable(Box::new(inner)))),
                #[trigger] pieces(false, normal(inner))[i],
            ),
{
    let p = pieces(false, normal(inner));
    let start = seq![TypeView::Scalar(ScalarView::Null)];
    lemma_gathered_holds(start, p, p.len());
    assert(start[0] == TypeView::Scalar(ScalarView::Null));
    assert(gathered(start, p, p.len())[0] == start[0]);
}


/// Every type equals itself.
pub proof fn lemma_same_reflexive(t: TypeView)
    ensures
        same(t, t),
        met_by(t, t),
    decreases t,
{
    match t {
        TypeView::Union(xs) => {
            assert forall|i: int| 0 <= i < xs.len() implies equalled_in(#[trigger] xs[i], xs)
                && holds_equal(t, xs[i]) by {
                lemma_same_reflexive(xs[i]);
            }
        },
        TypeView::Or(xs) => {
            assert forall|i: int| 0 <= i < xs.len() implies equalled_in(#[trigger] xs[i], xs)
                && holds_equal(t, xs[i]) by {
                lemma_same_reflexive(xs[i]);
            }
        },
        TypeView::Nullable(inner) => {
            lemma_same_reflexive(*inner);
        },
        _ => {},
    }
}

/// Every type is a subtype of itself, and of every type that is no
/// alternative.
pub proof fn lemma_subtype_of_plain(a: TypeView, b: TypeView)
    ensures
        subtype(a, a),
        !(b is Or) ==> subtype(a, b),
{
    lemma_same_reflexive(a);
    lemma_same_reflexive(b);
}

} // verus!
