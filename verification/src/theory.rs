//! What unification and substitution guarantee, proved over their
//! mathematical values.

use vstd::prelude::*;
use crate::terms::TermView;
use crate::unification::{
    occurs,
    applied,
    apply_fuel,
    bound,
    lemma_applied,
    lemma_apply_fuel_monotone,
    resolves,
    unified,
    unified_args,
    Bindings,
};

verus! {

/// Whether `big` binds every name that `small` binds, to the same term.
pub open spec fn included(small: Bindings, big: Bindings) -> bool {
    forall|k: Seq<char>| #[trigger] small.contains_key(k) ==> big.contains_key(k) && big[k] == small[k]
}

/// Unification only ever adds bindings: what was bound before stays bound to
/// the same term.
pub proof fn lemma_unified_grows(a: TermView, b: TermView, m: Bindings)
    requires
        unified(a, b, m) is Some,
    ensures
        included(m, unified(a, b, m)->0),
    decreases a, 0nat,
{
    if a != b {
        match a {
            TermView::Compound(f, xs) => match b {
                TermView::Compound(g, ys) => {
                    lemma_unified_args_grow(xs, ys, 0, m);
                },
                _ => {},
            },
            TermView::List(h1, t1) => match b {
                TermView::List(h2, t2) => {
                    lemma_unified_grows(*h1, *h2, m);
                    lemma_unified_grows(*t1, *t2, unified(*h1, *h2, m)->0);
                },
                _ => {},
            },
            _ => {},
        }
    }
}

/// Unifying argument lists only ever adds bindings.
pub proof fn lemma_unified_args_grow(xs: Seq<TermView>, ys: Seq<TermView>, i: int, m: Bindings)
    requires
        unified_args(xs, ys, i, m) is Some,
    ensures
        included(m, unified_args(xs, ys, i, m)->0),
    decreases xs, xs.len() - i,
{
    if 0 <= i < xs.len() {
        lemma_unified_grows(xs[i], ys[i], m);
        lemma_unified_args_grow(xs, ys, i + 1, unified(xs[i], ys[i], m)->0);
    }
}

/// Under any bindings that include what unifying `a` with `b` arrived at, the
/// two terms become the same term, whatever fuel reaches both results.
proof fn lemma_unified_equalizes(a: TermView, b: TermView, m: Bindings, all: Bindings, fuel: nat)
    requires
        unified(a, b, m) is Some,
        included(unified(a, b, m)->0, all),
        apply_fuel(all, a, fuel) is Some,
        apply_fuel(all, b, fuel) is Some,
    ensures
        apply_fuel(all, a, fuel) == apply_fuel(all, b, fuel),
    decreases a, 0nat,
{
    if a != b {
        match a {
            TermView::Variable(x) => {
                lemma_bound_equalizes(x, b, m, all, fuel);
            },
            TermView::Compound(f, xs) => match b {
                TermView::Variable(y) => {
                    lemma_bound_equalizes(y, a, m, all, fuel);
                },
                TermView::Compound(g, ys) => {
                    assert forall|j: int| 0 <= j < xs.len() implies apply_fuel(all, #[trigger] xs[j], fuel)
                        == apply_fuel(all, ys[j], fuel) by {
                        lemma_unified_args_equalize(xs, ys, 0, m, all, fuel, j);
                    }
                    assert(apply_fuel(all, a, fuel)->0->Compound_1 =~= apply_fuel(all, b, fuel)->0->Compound_1);
                },
                _ => {},
            },
            TermView::List(h1, t1) => match b {
                TermView::Variable(y) => {
                    lemma_bound_equalizes(y, a, m, all, fuel);
                },
                TermView::List(h2, t2) => {
                    let m1 = unified(*h1, *h2, m)->0;
                    lemma_unified_grows(*t1, *t2, m1);
                    lemma_unified_equalizes(*h1, *h2, m, all, fuel);
                    lemma_unified_equalizes(*t1, *t2, m1, all, fuel);
                },
                _ => {},
            },
            _ => match b {
                TermView::Variable(y) => {
                    lemma_bound_equalizes(y, a, m, all, fuel);
                },
                _ => {},
            },
        }
    }
}

/// A variable bound to a term becomes what that term becomes.
proof fn lemma_bound_equalizes(x: Seq<char>, t: TermView, m: Bindings, all: Bindings, fuel: nat)
    requires
        bound(x, t, m) is Some,
        included(bound(x, t, m)->0, all),
        apply_fuel(all, TermView::Variable(x), fuel) is Some,
        apply_fuel(all, t, fuel) is Some,
    ensures
        apply_fuel(all, TermView::Variable(x), fuel) == apply_fuel(all, t, fuel),
{
    assert(m.insert(x, t).contains_key(x));
    assert(all.contains_key(x) && all[x] == t);
    lemma_apply_fuel_monotone(all, t, (fuel - 1) as nat, fuel);
}

/// Under any bindings that include what unifying the argument lists arrived
/// at, the arguments at each position from `i` on become the same term.
proof fn lemma_unified_args_equalize(
    xs: Seq<TermView>,
    ys: Seq<TermView>,
    i: int,
    m: Bindings,
    all: Bindings,
    fuel: nat,
    j: int,
)
    requires
        0 <= i <= j < xs.len(),
        xs.len() == ys.len(),
        unified_args(xs, ys, i, m) is Some,
        included(unified_args(xs, ys, i, m)->0, all),
        apply_fuel(all, xs[j], fuel) is Some,
        apply_fuel(all, ys[j], fuel) is Some,
    ensures
        apply_fuel(all, xs[j], fuel) == apply_fuel(all, ys[j], fuel),
    decreases xs, xs.len() - i,
{
    let m1 = unified(xs[i], ys[i], m)->0;
    if i == j {
        lemma_unified_args_grow(xs, ys, i + 1, m1);
        lemma_unified_equalizes(xs[i], ys[i], m, all, fuel);
    } else {
        lemma_unified_args_equalize(xs, ys, i + 1, m1, all, fuel, j);
    }
}

/// With any fuel that resolves both, unified terms resolve to the same term
/// under the bindings that unifying them arrived at.
proof fn lemma_unify_equalizes(a: TermView, b: TermView, m: Bindings)
    requires
        unified(a, b, m) is Some,
        resolves(unified(a, b, m)->0, a),
        resolves(unified(a, b, m)->0, b),
    ensures
        applied(unified(a, b, m)->0, a) == applied(unified(a, b, m)->0, b),
{
    let after = unified(a, b, m)->0;
    let fa = choose|fuel: nat| apply_fuel(after, a, fuel) is Some;
    let fb = choose|fuel: nat| apply_fuel(after, b, fuel) is Some;
    let fuel = if fa <= fb {
        fb
    } else {
        fa
    };
    lemma_apply_fuel_monotone(after, a, fa, fuel);
    lemma_apply_fuel_monotone(after, b, fb, fuel);
    lemma_unified_equalizes(a, b, m, after, fuel);
    lemma_applied(after, a, fuel);
    lemma_applied(after, b, fuel);
}

/// Unification keeps a finite set of bindings finite.
pub proof fn lemma_unified_finite(a: TermView, b: TermView, m: Bindings)
    requires
        m.dom().finite(),
        unified(a, b, m) is Some,
    ensures
        unified(a, b, m)->0.dom().finite(),
    decreases a, 0nat,
{
    if a != b {
        match a {
            TermView::Compound(f, xs) => match b {
                TermView::Compound(g, ys) => {
                    lemma_unified_args_finite(xs, ys, 0, m);
                },
                _ => {},
            },
            TermView::List(h1, t1) => match b {
                TermView::List(h2, t2) => {
                    lemma_unified_finite(*h1, *h2, m);
                    lemma_unified_finite(*t1, *t2, unified(*h1, *h2, m)->0);
                },
                _ => {},
            },
            _ => {},
        }
    }
}

/// Unifying argument lists keeps a finite set of bindings finite.
pub proof fn lemma_unified_args_finite(xs: Seq<TermView>, ys: Seq<TermView>, i: int, m: Bindings)
    requires
        m.dom().finite(),
        unified_args(xs, ys, i, m) is Some,
    ensures
        unified_args(xs, ys, i, m)->0.dom().finite(),
    decreases xs, xs.len() - i,
{
    if 0 <= i < xs.len() {
        lemma_unified_finite(xs[i], ys[i], m);
        lemma_unified_args_finite(xs, ys, i + 1, unified(xs[i], ys[i], m)->0);
    }
}

/// Under any finite bindings that include what unifying `a` with `b`
/// arrived at, the one resolves exactly when the other does.
proof fn lemma_unified_resolve_together(a: TermView, b: TermView, m: Bindings, all: Bindings)
    requires
        all.dom().finite(),
        unified(a, b, m) is Some,
        included(unified(a, b, m)->0, all),
    ensures
        resolves(all, a) <==> resolves(all, b),
    decreases a, 0nat,
{
    if a != b {
        match a {
            TermView::Variable(x) => {
                lemma_bound_resolve_together(x, b, m, all);
            },
            TermView::Compound(f, xs) => match b {
                TermView::Variable(y) => {
                    lemma_bound_resolve_together(y, a, m, all);
                },
                TermView::Compound(g, ys) => {
                    assert forall|j: int| 0 <= j < xs.len() implies (resolves(all, #[trigger] xs[j])
                        <==> resolves(all, ys[j])) by {
                        lemma_unified_args_resolve_together(xs, ys, 0, m, all, j);
                    }
                    lemma_compound_resolves(all, f, xs);
                    lemma_compound_resolves(all, g, ys);
                },
                _ => {},
            },
            TermView::List(h1, t1) => match b {
                TermView::Variable(y) => {
                    lemma_bound_resolve_together(y, a, m, all);
                },
                TermView::List(h2, t2) => {
                    let m1 = unified(*h1, *h2, m)->0;
                    lemma_unified_grows(*t1, *t2, m1);
                    lemma_unified_resolve_together(*h1, *h2, m, all);
                    lemma_unified_resolve_together(*t1, *t2, m1, all);
                    lemma_list_resolves(all, *h1, *t1);
                    lemma_list_resolves(all, *h2, *t2);
                },
                _ => {},
            },
            _ => match b {
                TermView::Variable(y) => {
                    lemma_bound_resolve_together(y, a, m, all);
                },
                _ => {},
            },
        }
    }
}

/// A compound resolves under finite bindings exactly when each of its
/// arguments does.
proof fn lemma_compound_resolves(m: Bindings, name: Seq<char>, args: Seq<TermView>)
    requires
        m.dom().finite(),
    ensures
        resolves(m, TermView::Compound(name, args)) <==> (forall|i: int|
            0 <= i < args.len() ==> resolves(m, #[trigger] args[i])),
{
    let whole = TermView::Compound(name, args);
    if resolves(m, whole) {
        let fuel = choose|fuel: nat| apply_fuel(m, whole, fuel) is Some;
        assert forall|i: int| 0 <= i < args.len() implies resolves(m, #[trigger] args[i]) by {
            assert(apply_fuel(m, args[i], fuel) is Some);
        }
    }
    if forall|i: int| 0 <= i < args.len() ==> resolves(m, #[trigger] args[i]) {
        assert forall|i: int| 0 <= i < args.len() implies apply_fuel(m, #[trigger] args[i], m.len())
            is Some by {
            lemma_fuel_suffices(m, args[i]);
        }
        assert(apply_fuel(m, whole, m.len()) is Some);
    }
}

/// A cons cell resolves under finite bindings exactly when its head and
/// its tail do.
proof fn lemma_list_resolves(m: Bindings, head: TermView, tail: TermView)
    requires
        m.dom().finite(),
    ensures
        resolves(m, TermView::List(Box::new(head), Box::new(tail))) <==> resolves(m, head) && resolves(
            m,
            tail,
        ),
{
    let whole = TermView::List(Box::new(head), Box::new(tail));
    if resolves(m, whole) {
        let fuel = choose|fuel: nat| apply_fuel(m, whole, fuel) is Some;
        assert(apply_fuel(m, head, fuel) is Some);
        assert(apply_fuel(m, tail, fuel) is Some);
    }
    if resolves(m, head) && resolves(m, tail) {
        lemma_fuel_suffices(m, head);
        lemma_fuel_suffices(m, tail);
        assert(apply_fuel(m, whole, m.len()) is Some);
    }
}

/// A variable bound to a term resolves exactly when that term does.
proof fn lemma_bound_resolve_together(x: Seq<char>, t: TermView, m: Bindings, all: Bindings)
    requires
        bound(x, t, m) is Some,
        included(bound(x, t, m)->0, all),
    ensures
        resolves(all, TermView::Variable(x)) <==> resolves(all, t),
{
    assert(m.insert(x, t).contains_key(x));
    assert(all.contains_key(x) && all[x] == t);
    if resolves(all, TermView::Variable(x)) {
        let fuel = choose|fuel: nat| apply_fuel(all, TermView::Variable(x), fuel) is Some;
        assert(apply_fuel(all, t, (fuel - 1) as nat) is Some);
    }
    if resolves(all, t) {
        let fuel = choose|fuel: nat| apply_fuel(all, t, fuel) is Some;
        assert(apply_fuel(all, TermView::Variable(x), fuel + 1) is Some);
    }
}

/// Under any finite bindings that include what unifying the argument lists
/// arrived at, the arguments at each position from `i` on resolve together.
proof fn lemma_unified_args_resolve_together(
    xs: Seq<TermView>,
    ys: Seq<TermView>,
    i: int,
    m: Bindings,
    all: Bindings,
    j: int,
)
    requires
        all.dom().finite(),
        0 <= i <= j < xs.len(),
        xs.len() == ys.len(),
        unified_args(xs, ys, i, m) is Some,
        included(unified_args(xs, ys, i, m)->0, all),
    ensures
        resolves(all, xs[j]) <==> resolves(all, ys[j]),
    decreases xs, xs.len() - i,
{
    let m1 = unified(xs[i], ys[i], m)->0;
    if i == j {
        lemma_unified_args_grow(xs, ys, i + 1, m1);
        lemma_unified_resolve_together(xs[i], ys[i], m, all);
    } else {
        lemma_unified_args_resolve_together(xs, ys, i + 1, m1, all, j);
    }
}

/// Unification is sound: when `a` and `b` unify on top of `m`, applying the
/// bindings arrived at turns the two into the same term. Where one of them
/// resolves under those bindings, so does the other.
pub proof fn lemma_unify_sound(a: TermView, b: TermView, m: Bindings)
    requires
        m.dom().finite(),
        unified(a, b, m) is Some,
        resolves(unified(a, b, m)->0, a) || resolves(unified(a, b, m)->0, b),
    ensures
        resolves(unified(a, b, m)->0, a),
        resolves(unified(a, b, m)->0, b),
        applied(unified(a, b, m)->0, a) == applied(unified(a, b, m)->0, b),
{
    let after = unified(a, b, m)->0;
    lemma_unified_finite(a, b, m);
    lemma_unified_resolve_together(a, b, m, after);
    lemma_unify_equalizes(a, b, m);
}

/// The occurs-check: a variable does not unify with a different term that
/// holds it, whichever of the two comes first.
pub proof fn lemma_occurs_check(x: Seq<char>, t: TermView, m: Bindings)
    requires
        occurs(x, t),
        t != TermView::Variable(x),
    ensures
        unified(TermView::Variable(x), t, m) is None,
        unified(t, TermView::Variable(x), m) is None,
{
}

/// Unifying again changes nothing: under any bindings that include what
/// unifying `a` with `b` arrived at, the two unify and bind nothing new.
pub proof fn lemma_unify_again(a: TermView, b: TermView, m: Bindings, all: Bindings)
    requires
        unified(a, b, m) is Some,
        included(unified(a, b, m)->0, all),
    ensures
        unified(a, b, all) == Some(all),
    decreases a, 0nat,
{
    if a != b {
        match a {
            TermView::Variable(x) => {
                lemma_bound_again(x, b, m, all);
            },
            TermView::Compound(f, xs) => match b {
                TermView::Variable(y) => {
                    lemma_bound_again(y, a, m, all);
                },
                TermView::Compound(g, ys) => {
                    lemma_unify_args_again(xs, ys, 0, m, all);
                },
                _ => {},
            },
            TermView::List(h1, t1) => match b {
                TermView::Variable(y) => {
                    lemma_bound_again(y, a, m, all);
                },
                TermView::List(h2, t2) => {
                    let m1 = unified(*h1, *h2, m)->0;
                    lemma_unified_grows(*t1, *t2, m1);
                    lemma_unify_again(*h1, *h2, m, all);
                    lemma_unify_again(*t1, *t2, m1, all);
                },
                _ => {},
            },
            _ => match b {
                TermView::Variable(y) => {
                    lemma_bound_again(y, a, m, all);
                },
                _ => {},
            },
        }
    }
}

/// Binding again changes nothing.
proof fn lemma_bound_again(x: Seq<char>, t: TermView, m: Bindings, all: Bindings)
    requires
        bound(x, t, m) is Some,
        included(bound(x, t, m)->0, all),
    ensures
        bound(x, t, all) == Some(all),
{
    assert(m.insert(x, t).contains_key(x));
    assert(all.insert(x, t) =~= all);
}

/// Unifying argument lists again changes nothing.
proof fn lemma_unify_args_again(xs: Seq<TermView>, ys: Seq<TermView>, i: int, m: Bindings, all: Bindings)
    requires
        unified_args(xs, ys, i, m) is Some,
        included(unified_args(xs, ys, i, m)->0, all),
    ensures
        unified_args(xs, ys, i, all) == Some(all),
    decreases xs, xs.len() - i,
{
    if 0 <= i < xs.len() {
        let m1 = unified(xs[i], ys[i], m)->0;
        lemma_unified_args_grow(xs, ys, i + 1, m1);
        lemma_unify_again(xs[i], ys[i], m, all);
        lemma_unify_args_again(xs, ys, i + 1, m1, all);
    }
}

/// Merging does not depend on the order of its arguments: two sets of
/// bindings that agree have the same union either way.
pub proof fn lemma_merge_commutes(a: Bindings, b: Bindings)
    requires
        crate::term_map::agree(a, b),
    ensures
        crate::term_map::agree(b, a),
        a.union_prefer_right(b) == b.union_prefer_right(a),
{
    assert(a.union_prefer_right(b) =~= b.union_prefer_right(a));
}

/// A term that applying `m` arrived at holds no bound variable any more:
/// applying `m` to it needs no fuel and changes nothing.
pub proof fn lemma_apply_fuel_settles(m: Bindings, t: TermView, fuel: nat)
    requires
        apply_fuel(m, t, fuel) is Some,
    ensures
        apply_fuel(m, apply_fuel(m, t, fuel)->0, 0) == apply_fuel(m, t, fuel),
    decreases fuel, t,
{
    match t {
        TermView::Variable(x) => {
            if m.contains_key(x) {
                lemma_apply_fuel_settles(m, m[x], (fuel - 1) as nat);
            }
        },
        TermView::Compound(f, args) => {
            let out = apply_fuel(m, t, fuel)->0;
            let results = out->Compound_1;
            assert forall|i: int| 0 <= i < results.len() implies apply_fuel(m, #[trigger] results[i], 0)
                == Some(results[i]) by {
                lemma_apply_fuel_settles(m, args[i], fuel);
            }
            assert(apply_fuel(m, out, 0)->0->Compound_1 =~= results);
        },
        TermView::List(head, tail) => {
            lemma_apply_fuel_settles(m, *head, fuel);
            lemma_apply_fuel_settles(m, *tail, fuel);
        },
        _ => {},
    }
}

/// Applying a substitution is idempotent: the result of applying it resolves,
/// and applying it again changes nothing.
pub proof fn lemma_apply_idempotent(m: Bindings, t: TermView)
    requires
        resolves(m, t),
    ensures
        resolves(m, applied(m, t)),
        applied(m, applied(m, t)) == applied(m, t),
{
    let fuel = choose|fuel: nat| apply_fuel(m, t, fuel) is Some;
    lemma_apply_fuel_settles(m, t, fuel);
    lemma_applied(m, applied(m, t), 0);
}

/// Among the fuels that reach a result there is a least one.
proof fn lemma_least_fuel(m: Bindings, t: TermView, fuel: nat) -> (least: nat)
    requires
        apply_fuel(m, t, fuel) is Some,
    ensures
        least <= fuel,
        apply_fuel(m, t, least) is Some,
        forall|less: nat| less < least ==> apply_fuel(m, t, less) is None,
    decreases fuel,
{
    if exists|less: nat| less < fuel && apply_fuel(m, t, less) is Some {
        let less = choose|less: nat| less < fuel && apply_fuel(m, t, less) is Some;
        lemma_least_fuel(m, t, less)
    } else {
        fuel
    }
}

/// Where no fuel below `bound` resolves the variable `x`, nothing that
/// resolves with less fuel than `bound` ever follows the binding of `x`: it
/// resolves the same way without that binding.
proof fn lemma_binding_unused(m: Bindings, x: Seq<char>, bound: nat, t: TermView, fuel: nat)
    requires
        m.contains_key(x),
        forall|less: nat| less < bound ==> apply_fuel(m, TermView::Variable(x), less) is None,
        fuel < bound,
        apply_fuel(m, t, fuel) is Some,
    ensures
        apply_fuel(m.remove(x), t, fuel) == apply_fuel(m, t, fuel),
    decreases fuel, t,
{
    let without = m.remove(x);
    match t {
        TermView::Variable(y) => {
            if y != x && m.contains_key(y) {
                lemma_binding_unused(m, x, bound, m[y], (fuel - 1) as nat);
            }
        },
        TermView::Compound(f, args) => {
            assert forall|i: int| 0 <= i < args.len() implies apply_fuel(without, #[trigger] args[i], fuel)
                == apply_fuel(m, args[i], fuel) by {
                lemma_binding_unused(m, x, bound, args[i], fuel);
            }
            assert(apply_fuel(without, t, fuel)->0->Compound_1 =~= apply_fuel(m, t, fuel)->0->Compound_1);
        },
        TermView::List(head, tail) => {
            lemma_binding_unused(m, x, bound, *head, fuel);
            lemma_binding_unused(m, x, bound, *tail, fuel);
        },
        _ => {},
    }
}

/// A term that applying `m` needs no fuel for holds no variable that `m`
/// binds.
proof fn lemma_settled_holds_no_bound_variable(m: Bindings, t: TermView, x: Seq<char>)
    requires
        apply_fuel(m, t, 0) is Some,
        m.contains_key(x),
    ensures
        !occurs(x, t),
    decreases t,
{
    match t {
        TermView::Compound(f, args) => {
            assert forall|i: int| 0 <= i < args.len() implies !occurs(x, #[trigger] args[i]) by {
                lemma_settled_holds_no_bound_variable(m, args[i], x);
            }
        },
        TermView::List(head, tail) => {
            lemma_settled_holds_no_bound_variable(m, *head, x);
            lemma_settled_holds_no_bound_variable(m, *tail, x);
        },
        _ => {},
    }
}

/// What resolves without the binding of `x` to a term that does not hold
/// `x` resolves the same way with it.
proof fn lemma_binding_harmless(m: Bindings, x: Seq<char>, t: TermView, fuel: nat)
    requires
        apply_fuel(m.remove(x), t, fuel) is Some,
        !occurs(x, apply_fuel(m.remove(x), t, fuel)->0),
    ensures
        apply_fuel(m, t, fuel) == apply_fuel(m.remove(x), t, fuel),
    decreases fuel, t,
{
    let without = m.remove(x);
    match t {
        TermView::Variable(y) => {
            if without.contains_key(y) {
                lemma_binding_harmless(m, x, m[y], (fuel - 1) as nat);
            }
        },
        TermView::Compound(f, args) => {
            let results = apply_fuel(without, t, fuel)->0->Compound_1;
            assert forall|i: int| 0 <= i < args.len() implies apply_fuel(m, #[trigger] args[i], fuel)
                == apply_fuel(without, args[i], fuel) by {
                assert(results[i] == apply_fuel(without, args[i], fuel)->0);
                assert(!occurs(x, results[i]));
                lemma_binding_harmless(m, x, args[i], fuel);
            }
            assert(apply_fuel(m, t, fuel)->0->Compound_1 =~= results);
        },
        TermView::List(head, tail) => {
            lemma_binding_harmless(m, x, *head, fuel);
            lemma_binding_harmless(m, x, *tail, fuel);
        },
        _ => {},
    }
}

/// No chain of bindings that ends is longer than the number of bindings:
/// whatever resolves at all resolves with as much fuel as `m` has bindings.
pub proof fn lemma_fuel_suffices(m: Bindings, t: TermView)
    requires
        m.dom().finite(),
        resolves(m, t),
    ensures
        apply_fuel(m, t, m.len()) is Some,
    decreases m.len(), t,
{
    let some = choose|fuel: nat| apply_fuel(m, t, fuel) is Some;
    match t {
        TermView::Variable(x) => {
            if m.contains_key(x) {
                let least = lemma_least_fuel(m, t, some);
                let target = m[x];
                let without = m.remove(x);
                let spent = (least - 1) as nat;
                lemma_binding_unused(m, x, least, target, spent);
                let result = apply_fuel(m, target, spent)->0;
                lemma_applied(without, target, spent);
                lemma_fuel_suffices(without, target);
                lemma_applied(without, target, without.len());
                lemma_apply_fuel_settles(m, target, spent);
                lemma_settled_holds_no_bound_variable(m, result, x);
                lemma_binding_harmless(m, x, target, without.len());
            }
        },
        TermView::Compound(f, args) => {
            assert forall|i: int| 0 <= i < args.len() implies apply_fuel(m, #[trigger] args[i], m.len())
                is Some by {
                assert(apply_fuel(m, args[i], some) is Some);
                lemma_fuel_suffices(m, args[i]);
            }
        },
        TermView::List(head, tail) => {
            assert(apply_fuel(m, *head, some) is Some);
            assert(apply_fuel(m, *tail, some) is Some);
            lemma_fuel_suffices(m, *head);
            lemma_fuel_suffices(m, *tail);
        },
        _ => {},
    }
}

} // verus!
