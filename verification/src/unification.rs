//! Substitutions and unification with occurs-check.

use vstd::prelude::*;
use crate::term_map::{agree, TermMap};
use crate::terms::{term_eq, Term, TermView};

verus! {

/// The mathematical value of a substitution: a finite map from variable names
/// to term values.
pub type Bindings = Map<Seq<char>, TermView>;

/// Whether the variable `var` occurs anywhere inside `t`.
pub open spec fn occurs(var: Seq<char>, t: TermView) -> bool
    decreases t,
{
    match t {
        TermView::Variable(v) => v == var,
        TermView::Compound(_, args) => exists|i: int| 0 <= i < args.len() && occurs(var, #[trigger] args[i]),
        TermView::List(head, tail) => occurs(var, *head) || occurs(var, *tail),
        _ => false,
    }
}

/// Binding `var` to `t` on top of `m`: refused when `var` occurs in `t`, or
/// when `var` is already bound to a different term.
pub open spec fn bound(var: Seq<char>, t: TermView, m: Bindings) -> Option<Bindings> {
    if occurs(var, t) {
        None
    } else if m.contains_key(var) && m[var] != t {
        None
    } else {
        Some(m.insert(var, t))
    }
}

/// The bindings that unifying `a` with `b` on top of `m` arrives at, or
/// `None` when the two do not unify.
///
/// Equal terms unify and bind nothing. A variable is bound to the other term.
/// Compounds unify when name and arity agree and the arguments unify from
/// left to right, each on top of the bindings the earlier ones made; cons
/// cells unify head first, then tail. Everything else fails.
pub open spec fn unified(a: TermView, b: TermView, m: Bindings) -> Option<Bindings>
    decreases a, 0nat,
{
    if a == b {
        Some(m)
    } else {
        match a {
            TermView::Variable(x) => bound(x, b, m),
            TermView::Compound(f, xs) => match b {
                TermView::Variable(y) => bound(y, a, m),
                TermView::Compound(g, ys) => if f == g && xs.len() == ys.len() {
                    unified_args(xs, ys, 0, m)
                } else {
                    None
                },
                _ => None,
            },
            TermView::List(h1, t1) => match b {
                TermView::Variable(y) => bound(y, a, m),
                TermView::List(h2, t2) => match unified(*h1, *h2, m) {
                    Some(m1) => unified(*t1, *t2, m1),
                    None => None,
                },
                _ => None,
            },
            _ => match b {
                TermView::Variable(y) => bound(y, a, m),
                _ => None,
            },
        }
    }
}

/// The bindings that unifying `xs[i..]` with `ys[i..]` pairwise, from left to
/// right, arrives at.
pub open spec fn unified_args(xs: Seq<TermView>, ys: Seq<TermView>, i: int, m: Bindings) -> Option<
    Bindings,
>
    decreases xs, xs.len() - i,
{
    if 0 <= i < xs.len() {
        match unified(xs[i], ys[i], m) {
            Some(m1) => unified_args(xs, ys, i + 1, m1),
            None => None,
        }
    } else {
        Some(m)
    }
}

/// What `t` becomes when every bound variable is replaced by what it is
/// bound to, again and again, following at most `fuel` bindings in a row.
/// `None` when `fuel` bindings in a row do not reach the end of some chain.
pub open spec fn apply_fuel(m: Bindings, t: TermView, fuel: nat) -> Option<TermView>
    decreases fuel, t,
{
    match t {
        TermView::Variable(x) => if m.contains_key(x) {
            if fuel == 0 {
                None
            } else {
                apply_fuel(m, m[x], (fuel - 1) as nat)
            }
        } else {
            Some(t)
        },
        TermView::Compound(f, args) => if forall|i: int|
            0 <= i < args.len() ==> apply_fuel(m, #[trigger] args[i], fuel) is Some {
            Some(
                TermView::Compound(
                    f,
                    Seq::new(
                        args.len(),
                        |i: int|
                            if 0 <= i < args.len() {
                                apply_fuel(m, args[i], fuel)->0
                            } else {
                                TermView::EmptyList
                            },
                    ),
                ),
            )
        } else {
            None
        },
        TermView::List(head, tail) => match apply_fuel(m, *head, fuel) {
            Some(h) => match apply_fuel(m, *tail, fuel) {
                Some(tl) => Some(TermView::List(Box::new(h), Box::new(tl))),
                None => None,
            },
            None => None,
        },
        _ => Some(t),
    }
}

/// Whether every chain of bindings that starts inside `t` comes to an end.
pub open spec fn resolves(m: Bindings, t: TermView) -> bool {
    exists|fuel: nat| apply_fuel(m, t, fuel) is Some
}

/// What `t` becomes when every chain of bindings in it is followed to its
/// end. Meaningful where `resolves(m, t)`.
pub open spec fn applied(m: Bindings, t: TermView) -> TermView {
    apply_fuel(m, t, choose|fuel: nat| apply_fuel(m, t, fuel) is Some)->0
}

/// More fuel does not change a result that less fuel already reached.
pub proof fn lemma_apply_fuel_monotone(m: Bindings, t: TermView, fuel: nat, more: nat)
    requires
        apply_fuel(m, t, fuel) is Some,
        fuel <= more,
    ensures
        apply_fuel(m, t, more) == apply_fuel(m, t, fuel),
    decreases fuel, t,
{
    match t {
        TermView::Variable(x) => {
            if m.contains_key(x) {
                lemma_apply_fuel_monotone(m, m[x], (fuel - 1) as nat, (more - 1) as nat);
            }
        },
        TermView::Compound(f, args) => {
            assert forall|i: int| 0 <= i < args.len() implies apply_fuel(m, #[trigger] args[i], more)
                == apply_fuel(m, args[i], fuel) by {
                lemma_apply_fuel_monotone(m, args[i], fuel, more);
            }
            assert(apply_fuel(m, t, more)->0->Compound_1 =~= apply_fuel(m, t, fuel)->0->Compound_1);
        },
        TermView::List(head, tail) => {
            lemma_apply_fuel_monotone(m, *head, fuel, more);
            lemma_apply_fuel_monotone(m, *tail, fuel, more);
        },
        _ => {},
    }
}

/// Any fuel that reaches a result reaches `applied(m, t)`.
pub proof fn lemma_applied(m: Bindings, t: TermView, fuel: nat)
    requires
        apply_fuel(m, t, fuel) is Some,
    ensures
        resolves(m, t),
        apply_fuel(m, t, fuel) == Some(applied(m, t)),
{
    let chosen = choose|n: nat| apply_fuel(m, t, n) is Some;
    if chosen <= fuel {
        lemma_apply_fuel_monotone(m, t, chosen, fuel);
    } else {
        lemma_apply_fuel_monotone(m, t, fuel, chosen);
    }
}

/// A substitution: a finite map from variable names to terms.
#[derive(Debug)]
pub struct Substitution(TermMap);

impl View for Substitution {
    type V = Bindings;

    closed spec fn view(&self) -> Bindings {
        self.0@
    }
}

impl Clone for Substitution {
    fn clone(&self) -> (copy: Self)
        ensures
            copy@ == self@,
    {
        Substitution(self.0.clone())
    }
}

impl PartialEq for Substitution {
    fn eq(&self, other: &Substitution) -> (r: bool) {
        self.0 == other.0
    }
}

impl vstd::std_specs::cmp::PartialEqSpecImpl for Substitution {
    open spec fn obeys_eq_spec() -> bool {
        true
    }

    open spec fn eq_spec(&self, other: &Substitution) -> bool {
        self@ == other@
    }
}

/// The value of an optional term.
pub open spec fn view_option(term: Option<Term>) -> Option<TermView> {
    match term {
        Some(t) => Some(t@),
        None => None,
    }
}

impl Substitution {
    /// The empty substitution.
    pub fn new() -> (subst: Self)
        ensures
            subst@ == Map::<Seq<char>, TermView>::empty(),
    {
        Substitution(TermMap::new())
    }

    /// The number of variables bound.
    pub fn len(&self) -> (n: usize)
        ensures
            self@.dom().finite(),
            n == self@.len(),
    {
        self.0.len()
    }

    /// The term that `var` is bound to, if any. Chains are not followed.
    pub fn get(&self, var: &str) -> (found: Option<&Term>)
        ensures
            match found {
                Some(term) => self@.contains_key(var@) && term@ == self@[var@],
                None => !self@.contains_key(var@),
            },
    {
        self.0.get(var)
    }

    /// Binds `var` to `term`, replacing any earlier binding of `var`.
    pub fn extend(&mut self, var: String, term: Term)
        ensures
            final(self)@ == old(self)@.insert(var@, term@),
    {
        self.0.insert(var, term);
    }

    /// The union of two substitutions; `None` when they bind some variable
    /// to different terms.
    pub fn merge(&self, other: &Substitution) -> (merged: Option<Substitution>)
        ensures
            match merged {
                Some(m) => agree(self@, other@) && m@ == self@.union_prefer_right(other@),
                None => !agree(self@, other@),
            },
    {
        match self.0.merge(&other.0) {
            Some(map) => Some(Substitution(map)),
            None => None,
        }
    }

    /// Follows at most `fuel` bindings in a row while replacing the bound
    /// variables of `term`.
    pub fn apply_bounded(&self, term: &Term, fuel: usize) -> (result: Option<Term>)
        ensures
            view_option(result) == apply_fuel(self@, term@, fuel as nat),
        decreases fuel, term,
    {
        match term {
            Term::Variable(name) => match self.get(name.as_str()) {
                Some(target) => {
                    if fuel == 0 {
                        None
                    } else {
                        self.apply_bounded(target, fuel - 1)
                    }
                },
                None => Some(term.clone()),
            },
            Term::Compound(name, args) => {
                let mut results: Vec<Term> = Vec::new();
                let mut i: usize = 0;
                while i < args.len()
                    invariant
                        *term matches Term::Compound(_, a) && a == *args,
                        i <= args.len(),
                        results.len() == i,
                        forall|j: int|
                            0 <= j < i ==> apply_fuel(self@, #[trigger] args[j]@, fuel as nat) == Some(
                                results[j]@,
                            ),
                    decreases args.len() - i,
                {
                    proof {
                        vstd::std_specs::vec::axiom_vec_index_decreases(*args, i as int);
                    }
                    match self.apply_bounded(&args[i], fuel) {
                        Some(result) => {
                            results.push(result);
                        },
                        None => {
                            assert(crate::terms::view_terms(args@)[i as int] == args[i as int]@);
                            return None;
                        },
                    }
                    i += 1;
                }
                proof {
                    let views = crate::terms::view_terms(args@);
                    assert forall|j: int| 0 <= j < views.len() implies apply_fuel(
                        self@,
                        #[trigger] views[j],
                        fuel as nat,
                    ) is Some by {
                        assert(views[j] == args[j]@);
                    }
                    let out = apply_fuel(self@, term@, fuel as nat)->0->Compound_1;
                    assert(out.len() == views.len());
                    assert forall|j: int| 0 <= j < out.len() implies out[j] == crate::terms::view_terms(
                        results@,
                    )[j] by {
                        assert(views[j] == args[j]@);
                    }
                    assert(out =~= crate::terms::view_terms(results@));
                }
                Some(Term::Compound(name.clone(), results))
            },
            Term::List(head, tail) => match self.apply_bounded(head, fuel) {
                Some(h) => match self.apply_bounded(tail, fuel) {
                    Some(t) => Some(Term::List(Box::new(h), Box::new(t))),
                    None => None,
                },
                None => None,
            },
            _ => Some(term.clone()),
        }
    }

    /// Replaces every bound variable of `term` by what it is bound to,
    /// following chains of bindings to their end; `None` when some chain
    /// does not end.
    pub fn try_apply(&self, term: &Term) -> (result: Option<Term>)
        ensures
            match result {
                Some(t) => resolves(self@, term@) && t@ == applied(self@, term@),
                None => !resolves(self@, term@),
            },
    {
        let fuel = self.len();
        let result = self.apply_bounded(term, fuel);
        proof {
            if result is Some {
                lemma_applied(self@, term@, fuel as nat);
            } else if resolves(self@, term@) {
                crate::theory::lemma_fuel_suffices(self@, term@);
            }
        }
        result
    }

    /// Replaces every bound variable of `term` by what it is bound to,
    /// following chains of bindings to their end.
    pub fn apply(&self, term: &Term) -> (result: Term)
        requires
            resolves(self@, term@),
        ensures
            result@ == applied(self@, term@),
    {
        let ghost fuel = choose|fuel: nat| apply_fuel(self@, term@, fuel) is Some;
        self.apply_within(term, Ghost(fuel))
    }

    /// Follows variable chains to their final value, inside compounds and
    /// lists too.
    pub fn resolve(&self, term: &Term) -> (result: Term)
        requires
            resolves(self@, term@),
        ensures
            result@ == applied(self@, term@),
    {
        self.apply(term)
    }

    /// Applies the bindings with a fuel that is known to suffice.
    fn apply_within(&self, term: &Term, Ghost(fuel): Ghost<nat>) -> (result: Term)
        requires
            apply_fuel(self@, term@, fuel) is Some,
        ensures
            apply_fuel(self@, term@, fuel) == Some(result@),
        decreases fuel, term,
    {
        match term {
            Term::Variable(name) => match self.get(name.as_str()) {
                Some(target) => self.apply_within(target, Ghost((fuel - 1) as nat)),
                None => term.clone(),
            },
            Term::Compound(name, args) => {
                let mut results: Vec<Term> = Vec::new();
                let mut i: usize = 0;
                proof {
                    let views = crate::terms::view_terms(args@);
                    assert forall|j: int| 0 <= j < args.len() implies apply_fuel(
                        self@,
                        #[trigger] args[j]@,
                        fuel,
                    ) is Some by {
                        assert(views[j] == args[j]@);
                    }
                }
                while i < args.len()
                    invariant
                        *term matches Term::Compound(_, a) && a == *args,
                        i <= args.len(),
                        results.len() == i,
                        forall|j: int|
                            0 <= j < args.len() ==> apply_fuel(self@, #[trigger] args[j]@, fuel) is Some,
                        forall|j: int|
                            0 <= j < i ==> apply_fuel(self@, #[trigger] args[j]@, fuel) == Some(results[j]@),
                    decreases args.len() - i,
                {
                    proof {
                        vstd::std_specs::vec::axiom_vec_index_decreases(*args, i as int);
                    }
                    let result = self.apply_within(&args[i], Ghost(fuel));
                    results.push(result);
                    i += 1;
                }
                proof {
                    let views = crate::terms::view_terms(args@);
                    let out = apply_fuel(self@, term@, fuel)->0->Compound_1;
                    assert(out.len() == views.len());
                    assert forall|j: int| 0 <= j < out.len() implies out[j] == crate::terms::view_terms(
                        results@,
                    )[j] by {
                        assert(views[j] == args[j]@);
                    }
                    assert(out =~= crate::terms::view_terms(results@));
                }
                Term::Compound(name.clone(), results)
            },
            Term::List(head, tail) => {
                let h = self.apply_within(head, Ghost(fuel));
                let t = self.apply_within(tail, Ghost(fuel));
                Term::List(Box::new(h), Box::new(t))
            },
            _ => term.clone(),
        }
    }
}

/// Whether the variable `var` occurs anywhere inside `term`.
pub fn occurs_check(var: &str, term: &Term) -> (found: bool)
    ensures
        found == occurs(var@, term@),
    decreases term,
{
    match term {
        Term::Variable(v) => crate::text::same_text(v.as_str(), var),
        Term::Compound(_, args) => {
            let mut i: usize = 0;
            while i < args.len()
                invariant
                    *term matches Term::Compound(_, a) && a == *args,
                    i <= args.len(),
                    forall|j: int| 0 <= j < i ==> !occurs(var@, #[trigger] args[j]@),
                decreases args.len() - i,
            {
                proof {
                    vstd::std_specs::vec::axiom_vec_index_decreases(*args, i as int);
                }
                if occurs_check(var, &args[i]) {
                    assert(crate::terms::view_terms(args@)[i as int] == args[i as int]@);
                    assert(occurs(var@, crate::terms::view_terms(args@)[i as int]));
                    assert(term@ matches TermView::Compound(_, vs) && vs == crate::terms::view_terms(args@));
                    assert(occurs(var@, term@));
                    return true;
                }
                i += 1;
            }
            proof {
                let views = crate::terms::view_terms(args@);
                assert forall|j: int| 0 <= j < views.len() implies !occurs(var@, #[trigger] views[j]) by {
                    assert(views[j] == args[j]@);
                }
            }
            false
        },
        Term::List(head, tail) => occurs_check(var, head) || occurs_check(var, tail),
        _ => false,
    }
}

/// Binds `var` to `term` unless the occurs-check or an earlier, different
/// binding of `var` forbids it.
fn bind(var: &String, term: &Term, subst: &mut Substitution) -> (ok: bool)
    ensures
        ok == bound(var@, term@, old(subst)@) is Some,
        ok ==> final(subst)@ == bound(var@, term@, old(subst)@)->0,
{
    if occurs_check(var.as_str(), term) {
        return false;
    }
    let conflict = match subst.get(var.as_str()) {
        Some(existing) => !term_eq(existing, term),
        None => false,
    };
    if conflict {
        return false;
    }
    subst.extend(var.clone(), term.clone());
    true
}

/// Unifies `list1` with `list2` position by position; fails when the lengths
/// differ.
pub fn unify_lists(list1: &[Term], list2: &[Term], subst: &mut Substitution) -> (ok: bool)
    ensures
        ok == (list1.len() == list2.len() && unified_args(
            crate::terms::view_terms(list1@),
            crate::terms::view_terms(list2@),
            0,
            old(subst)@,
        ) is Some),
        final(subst)@ == if ok {
            unified_args(
                crate::terms::view_terms(list1@),
                crate::terms::view_terms(list2@),
                0,
                old(subst)@,
            )->0
        } else {
            old(subst)@
        },
{
    if list1.len() != list2.len() {
        return false;
    }
    let mut work = subst.clone();
    if unify_args_into(list1, list2, &mut work) {
        *subst = work;
        true
    } else {
        false
    }
}

/// Unifies two argument lists of equal length from left to right; on
/// failure `subst` may hold some of the bindings made on the way.
fn unify_args_into(xs: &[Term], ys: &[Term], subst: &mut Substitution) -> (ok: bool)
    requires
        xs.len() == ys.len(),
    ensures
        ok == unified_args(
            crate::terms::view_terms(xs@),
            crate::terms::view_terms(ys@),
            0,
            old(subst)@,
        ) is Some,
        ok ==> final(subst)@ == unified_args(
            crate::terms::view_terms(xs@),
            crate::terms::view_terms(ys@),
            0,
            old(subst)@,
        )->0,
    decreases xs@, 0nat,
{
    let ghost vx = crate::terms::view_terms(xs@);
    let ghost vy = crate::terms::view_terms(ys@);
    let mut i: usize = 0;
    while i < xs.len()
        invariant
            xs.len() == ys.len(),
            i <= xs.len(),
            vx == crate::terms::view_terms(xs@),
            vy == crate::terms::view_terms(ys@),
            unified_args(vx, vy, 0, old(subst)@) == unified_args(vx, vy, i as int, subst@),
        decreases xs.len() - i,
    {
        assert(vx[i as int] == xs[i as int]@);
        assert(vy[i as int] == ys[i as int]@);
        if !unify_into(&xs[i], &ys[i], subst) {
            return false;
        }
        i += 1;
    }
    true
}

/// Unifies two terms; on failure `subst` may hold some of the bindings
/// made on the way.
fn unify_into(term1: &Term, term2: &Term, subst: &mut Substitution) -> (ok: bool)
    ensures
        ok == unified(term1@, term2@, old(subst)@) is Some,
        ok ==> final(subst)@ == unified(term1@, term2@, old(subst)@)->0,
    decreases term1, 1nat,
{
    if term_eq(term1, term2) {
        return true;
    }
    match term1 {
        Term::Variable(x) => bind(x, term2, subst),
        Term::Compound(f, xs) => match term2 {
            Term::Variable(y) => bind(y, term1, subst),
            Term::Compound(g, ys) => {
                if *f == *g && xs.len() == ys.len() {
                    unify_args_into(xs.as_slice(), ys.as_slice(), subst)
                } else {
                    assert(crate::terms::view_terms(xs@).len() == xs.len());
                    assert(crate::terms::view_terms(ys@).len() == ys.len());
                    false
                }
            },
            _ => false,
        },
        Term::List(h1, t1) => match term2 {
            Term::Variable(y) => bind(y, term1, subst),
            Term::List(h2, t2) => unify_into(h1, h2, subst) && unify_into(t1, t2, subst),
            _ => false,
        },
        _ => match term2 {
            Term::Variable(y) => bind(y, term1, subst),
            _ => false,
        },
    }
}

/// Unifies `term1` with `term2` on top of `subst`. On success `subst` holds
/// the bindings that make the two equal; on failure it is left as it was.
pub fn unify(term1: &Term, term2: &Term, subst: &mut Substitution) -> (ok: bool)
    ensures
        ok == unified(term1@, term2@, old(subst)@) is Some,
        final(subst)@ == match unified(term1@, term2@, old(subst)@) {
            Some(bindings) => bindings,
            None => old(subst)@,
        },
{
    let mut work = subst.clone();
    if unify_into(term1, term2, &mut work) {
        *subst = work;
        true
    } else {
        false
    }
}

} // verus!
