//! The builtin predicates on lists and integers. Each succeeds at most once
//! and never consults the clause database.

use vstd::prelude::*;
use vstd::relations::sorted_by;
use crate::terms::{list_items, list_of, term_eq, view_terms, Term, TermView};
use crate::text::{decimal, push_decimal};
use crate::unification::{unified, unify, Bindings, Substitution};

verus! {

/// The bindings of an optional substitution.
pub open spec fn bindings_of(outcome: Option<Substitution>) -> Option<Bindings> {
    match outcome {
        Some(subst) => Some(subst@),
        None => None,
    }
}

/// The bindings that bind nothing.
pub open spec fn no_bindings() -> Bindings {
    Map::empty()
}

/// The bindings that bind `var` to `t` and nothing else.
pub open spec fn one_binding(var: Seq<char>, t: TermView) -> Bindings {
    Map::<Seq<char>, TermView>::empty().insert(var, t)
}

/// What `append/3` answers. With the first two lists known, their
/// concatenation is unified with the third argument. Else, with the first
/// list and the result known, the rest of the result after the first list is
/// unified with the second argument. Else, with the second list and the
/// result known, the result before the second list is unified with the first
/// argument. Everything else fails.
pub open spec fn append_outcome(args: Seq<TermView>) -> Option<Bindings> {
    if args.len() != 3 {
        None
    } else {
        let first = list_items(args[0]);
        let second = list_items(args[1]);
        let whole = list_items(args[2]);
        if first is Some && second is Some {
            unified(args[2], list_of(first->0 + second->0), no_bindings())
        } else if first is Some && whole is Some {
            if first->0.is_prefix_of(whole->0) {
                unified(
                    args[1],
                    list_of(whole->0.subrange(first->0.len() as int, whole->0.len() as int)),
                    no_bindings(),
                )
            } else {
                None
            }
        } else if second is Some && whole is Some {
            if second->0.is_suffix_of(whole->0) {
                unified(
                    args[0],
                    list_of(whole->0.subrange(0, whole->0.len() - second->0.len())),
                    no_bindings(),
                )
            } else {
                None
            }
        } else {
            None
        }
    }
}

/// The bindings of the first position of `list` whose element unifies with
/// `element`; `None` when no position does, or `list` is no list.
pub open spec fn first_member(element: TermView, list: TermView) -> Option<Bindings>
    decreases list,
{
    match list {
        TermView::List(head, tail) => match unified(element, *head, no_bindings()) {
            Some(bindings) => Some(bindings),
            None => first_member(element, *tail),
        },
        _ => None,
    }
}

/// What `member/2` answers.
pub open spec fn member_outcome(args: Seq<TermView>) -> Option<Bindings> {
    if args.len() != 2 {
        None
    } else {
        first_member(args[0], args[1])
    }
}

/// The integers from `low` to `high` in decimal, separated by `"; "`.
pub open spec fn range_text(low: int, high: int) -> Seq<char>
    decreases high - low,
{
    if low >= high {
        decimal(low)
    } else {
        range_text(low, high - 1) + "; "@ + decimal(high)
    }
}

/// What `between/3` answers: with integer bounds `low <= high` and a
/// variable, the variable bound to the constant that lists the range.
pub open spec fn between_outcome(args: Seq<TermView>) -> Option<Bindings> {
    if args.len() != 3 {
        None
    } else {
        match (args[0], args[1], args[2]) {
            (TermView::Integer(low), TermView::Integer(high), TermView::Variable(var)) => if low > high {
                None
            } else {
                Some(one_binding(var, TermView::Constant(range_text(low as int, high as int))))
            },
            _ => None,
        }
    }
}

/// What `length/2` answers: for a proper list, the second argument bound to
/// its length if it is a variable, nothing bound if it is that very integer.
pub open spec fn length_outcome(args: Seq<TermView>) -> Option<Bindings> {
    if args.len() != 2 {
        None
    } else {
        match list_items(args[0]) {
            Some(items) => if items.len() > i64::MAX {
                None
            } else {
                match args[1] {
                    TermView::Variable(var) => Some(one_binding(var, TermView::Integer(items.len() as i64))),
                    TermView::Integer(n) => if n == items.len() {
                        Some(no_bindings())
                    } else {
                        None
                    },
                    _ => None,
                }
            },
            None => None,
        }
    }
}

/// The heads of a chain of cons cells, whatever ends the chain.
pub open spec fn chain_items(t: TermView) -> Seq<TermView>
    decreases t,
{
    match t {
        TermView::List(head, tail) => seq![*head] + chain_items(*tail),
        _ => Seq::empty(),
    }
}

/// What `reverse/2` answers: for a cons cell or the empty list and a
/// variable, the variable bound to the list of the chain's heads in reverse.
pub open spec fn reverse_outcome(args: Seq<TermView>) -> Option<Bindings> {
    if args.len() != 2 {
        None
    } else if !(args[0] is List || args[0] is EmptyList) {
        None
    } else {
        match args[1] {
            TermView::Variable(var) => Some(one_binding(var, list_of(chain_items(args[0]).reverse()))),
            _ => None,
        }
    }
}

/// What `max/3` and `min/3` answer: for two integers and a variable, the
/// variable bound to the greater (`greatest`) or the lesser of the two.
pub open spec fn extreme_outcome(args: Seq<TermView>, greatest: bool) -> Option<Bindings> {
    if args.len() != 3 {
        None
    } else {
        match (args[0], args[1], args[2]) {
            (TermView::Integer(left), TermView::Integer(right), TermView::Variable(var)) => Some(
                one_binding(
                    var,
                    TermView::Integer(
                        if (left >= right) == greatest {
                            left
                        } else {
                            right
                        },
                    ),
                ),
            ),
            _ => None,
        }
    }
}

/// What `succ/2` answers: for an integer below the greatest and a variable,
/// the variable bound to the next integer.
pub open spec fn succ_outcome(args: Seq<TermView>) -> Option<Bindings> {
    if args.len() != 2 {
        None
    } else {
        match (args[0], args[1]) {
            (TermView::Integer(n), TermView::Variable(var)) => if n < i64::MAX {
                Some(one_binding(var, TermView::Integer((n + 1) as i64)))
            } else {
                None
            },
            _ => None,
        }
    }
}

/// Whether every term of the sequence is an integer.
pub open spec fn all_integers(items: Seq<TermView>) -> bool {
    forall|i: int| 0 <= i < items.len() ==> (#[trigger] items[i]) is Integer
}

/// The integers that a sequence of integer terms holds.
pub open spec fn integers_of(items: Seq<TermView>) -> Seq<i64> {
    Seq::new(items.len(), |i: int| items[i]->Integer_0)
}

/// The integer terms that hold the given integers.
pub open spec fn integer_terms(values: Seq<i64>) -> Seq<TermView> {
    Seq::new(values.len(), |i: int| TermView::Integer(values[i]))
}

/// The order of the integers.
pub open spec fn at_most() -> spec_fn(i64, i64) -> bool {
    |a: i64, b: i64| a <= b
}

/// What `sort/2` answers: for a proper list of integers and a variable, the
/// variable bound to the list of the same integers in ascending order.
pub open spec fn sort_outcome(args: Seq<TermView>) -> Option<Bindings> {
    if args.len() != 2 {
        None
    } else {
        match (args[1], list_items(args[0])) {
            (TermView::Variable(var), Some(items)) => if all_integers(items) {
                Some(one_binding(var, list_of(integer_terms(integers_of(items).sort_by(at_most())))))
            } else {
                None
            },
            _ => None,
        }
    }
}

/// `sort` on a vector of integers, from the standard library: afterwards the
/// vector holds the same integers, each as often as before, in ascending
/// order.
#[verifier::external_body]
fn sort_integers(values: &mut Vec<i64>)
    ensures
        sorted_by(final(values)@, at_most()),
        final(values)@.to_multiset() == old(values)@.to_multiset(),
{
    values.sort();
}

/// Unifies two terms on top of no bindings.
fn unify_fresh(a: &Term, b: &Term) -> (outcome: Option<Substitution>)
    ensures
        bindings_of(outcome) == unified(a@, b@, no_bindings()),
{
    let mut subs = Substitution::new();
    if unify(a, b, &mut subs) {
        Some(subs)
    } else {
        None
    }
}

/// The substitution that binds `var` to `term` and nothing else.
fn bind_one(var: &String, term: Term) -> (subst: Substitution)
    ensures
        subst@ == one_binding(var@, term@),
{
    let mut subs = Substitution::new();
    subs.extend(var.clone(), term);
    subs
}

/// The list of the terms `items[from..to]`.
fn list_of_range(items: &Vec<Term>, from: usize, to: usize) -> (list: Term)
    requires
        from <= to <= items.len(),
    ensures
        list@ == list_of(view_terms(items@).subrange(from as int, to as int)),
{
    let mut part: Vec<Term> = Vec::new();
    let mut i: usize = from;
    while i < to
        invariant
            from <= i <= to <= items.len(),
            part.len() == i - from,
            forall|j: int| 0 <= j < part.len() ==> part[j]@ == items[from + j]@,
        decreases to - i,
    {
        part.push(items[i].clone());
        i += 1;
    }
    assert(view_terms(part@) =~= view_terms(items@).subrange(from as int, to as int));
    Term::list_from_vec(part)
}

/// Whether `part` equals `whole[from..from + part.len()]`, term by term.
fn matches_at(part: &Vec<Term>, whole: &Vec<Term>, from: usize) -> (same: bool)
    requires
        from + part.len() <= whole.len(),
    ensures
        same == (view_terms(part@) =~= view_terms(whole@).subrange(
            from as int,
            from + part.len() as int,
        )),
{
    let mut i: usize = 0;
    while i < part.len()
        invariant
            from + part.len() <= whole.len(),
            i <= part.len(),
            forall|j: int| 0 <= j < i ==> part[j]@ == whole[from + j]@,
        decreases part.len() - i,
    {
        if !term_eq(&part[i], &whole[from + i]) {
            assert(view_terms(part@)[i as int] != view_terms(whole@).subrange(
                from as int,
                from + part.len() as int,
            )[i as int]);
            return false;
        }
        i += 1;
    }
    true
}

/// The builtin `append/3`.
pub fn builtin_append(args: &[Term]) -> (outcome: Option<Substitution>)
    ensures
        bindings_of(outcome) == append_outcome(view_terms(args@)),
{
    if args.len() != 3 {
        return None;
    }
    proof {
        let views = view_terms(args@);
        assert(views[0] == args[0]@ && views[1] == args[1]@ && views[2] == args[2]@);
    }
    let first = args[0].to_vec();
    let second = args[1].to_vec();
    let whole = args[2].to_vec();
    match first {
        Some(vec1) => match second {
            Some(vec2) => {
                let mut combined: Vec<Term> = Vec::new();
                let mut i: usize = 0;
                while i < vec1.len()
                    invariant
                        i <= vec1.len(),
                        combined.len() == i,
                        forall|j: int| 0 <= j < i ==> combined[j]@ == vec1[j]@,
                    decreases vec1.len() - i,
                {
                    combined.push(vec1[i].clone());
                    i += 1;
                }
                let mut k: usize = 0;
                while k < vec2.len()
                    invariant
                        k <= vec2.len(),
                        combined.len() == vec1.len() + k,
                        forall|j: int| 0 <= j < vec1.len() ==> combined[j]@ == vec1[j]@,
                        forall|j: int| 0 <= j < k ==> combined[vec1.len() + j]@ == vec2[j]@,
                    decreases vec2.len() - k,
                {
                    combined.push(vec2[k].clone());
                    k += 1;
                }
                assert(view_terms(combined@) =~= view_terms(vec1@) + view_terms(vec2@));
                let combined_term = Term::from_vec(combined.as_slice());
                unify_fresh(&args[2], &combined_term)
            },
            None => match whole {
                Some(result_vec) => {
                    if vec1.len() <= result_vec.len() && matches_at(&vec1, &result_vec, 0) {
                        let remaining = list_of_range(&result_vec, vec1.len(), result_vec.len());
                        unify_fresh(&args[1], &remaining)
                    } else {
                        None
                    }
                },
                None => None,
            },
        },
        None => match second {
            Some(vec2) => match whole {
                Some(result_vec) => {
                    if vec2.len() <= result_vec.len() && matches_at(
                        &vec2,
                        &result_vec,
                        result_vec.len() - vec2.len(),
                    ) {
                        let prefix = list_of_range(&result_vec, 0, result_vec.len() - vec2.len());
                        unify_fresh(&args[0], &prefix)
                    } else {
                        None
                    }
                },
                None => None,
            },
            None => None,
        },
    }
}

/// The builtin `member/2`.
pub fn builtin_member(args: &[Term]) -> (outcome: Option<Substitution>)
    ensures
        bindings_of(outcome) == member_outcome(view_terms(args@)),
{
    if args.len() != 2 {
        return None;
    }
    proof {
        let views = view_terms(args@);
        assert(views[0] == args[0]@ && views[1] == args[1]@);
    }
    let element = &args[0];
    let mut current = &args[1];
    loop
        invariant
            first_member(element@, args[1]@) == first_member(element@, current@),
            view_terms(args@).len() == 2,
            view_terms(args@)[0] == element@,
            view_terms(args@)[1] == args[1]@,
        decreases current,
    {
        match current {
            Term::List(head, tail) => {
                match unify_fresh(element, head) {
                    Some(subs) => {
                        return Some(subs);
                    },
                    None => {},
                }
                current = &**tail;
            },
            _ => {
                return None;
            },
        }
    }
}

/// The builtin `between/3`.
pub fn builtin_between(args: &[Term]) -> (outcome: Option<Substitution>)
    ensures
        bindings_of(outcome) == between_outcome(view_terms(args@)),
{
    if args.len() != 3 {
        return None;
    }
    proof {
        let views = view_terms(args@);
        assert(views[0] == args[0]@ && views[1] == args[1]@ && views[2] == args[2]@);
    }
    let low = match &args[0] {
        Term::Integer(n) => *n,
        _ => {
            return None;
        },
    };
    let high = match &args[1] {
        Term::Integer(n) => *n,
        _ => {
            return None;
        },
    };
    let var = match &args[2] {
        Term::Variable(v) => v,
        _ => {
            return None;
        },
    };
    if low > high {
        return None;
    }
    let mut text = String::new();
    push_decimal(&mut text, low);
    assert(text@ =~= range_text(low as int, low as int));
    let mut n: i64 = low;
    while n < high
        invariant
            low <= n <= high,
            text@ == range_text(low as int, n as int),
        decreases high - n,
    {
        n += 1;
        text.append("; ");
        push_decimal(&mut text, n);
    }
    Some(bind_one(var, Term::Constant(text)))
}

/// The number of elements of a proper list, where it fits in 64 bits.
fn count_items(list: &Term) -> (count: Option<i64>)
    ensures
        match count {
            Some(n) => list_items(list@) matches Some(items) && items.len() == n,
            None => list_items(list@) matches Some(items) ==> items.len() > i64::MAX,
        },
{
    let mut count: i64 = 0;
    let mut current = list;
    loop
        invariant
            0 <= count,
            list_items(list@) is Some == list_items(current@) is Some,
            list_items(list@) matches Some(items) ==> items.len() == count + list_items(current@)->0.len(),
        decreases current,
    {
        match current {
            Term::List(_head, tail) => {
                if count == i64::MAX {
                    return None;
                }
                count += 1;
                current = &**tail;
            },
            Term::EmptyList => {
                return Some(count);
            },
            _ => {
                return None;
            },
        }
    }
}

/// The builtin `length/2`.
pub fn builtin_length(args: &[Term]) -> (outcome: Option<Substitution>)
    ensures
        bindings_of(outcome) == length_outcome(view_terms(args@)),
{
    if args.len() != 2 {
        return None;
    }
    proof {
        let views = view_terms(args@);
        assert(views[0] == args[0]@ && views[1] == args[1]@);
    }
    let count = match count_items(&args[0]) {
        Some(n) => n,
        None => {
            return None;
        },
    };
    match &args[1] {
        Term::Variable(v) => Some(bind_one(v, Term::Integer(count))),
        Term::Integer(n) => if *n == count {
            Some(Substitution::new())
        } else {
            None
        },
        _ => None,
    }
}

/// The builtin `reverse/2`.
pub fn builtin_reverse(args: &[Term]) -> (outcome: Option<Substitution>)
    ensures
        bindings_of(outcome) == reverse_outcome(view_terms(args@)),
{
    if args.len() != 2 {
        return None;
    }
    proof {
        let views = view_terms(args@);
        assert(views[0] == args[0]@ && views[1] == args[1]@);
    }
    match &args[0] {
        Term::List(_, _) => {},
        Term::EmptyList => {},
        _ => {
            return None;
        },
    }
    let mut elements: Vec<Term> = Vec::new();
    let mut current = &args[0];
    assert(view_terms(elements@) =~= Seq::empty());
    loop
        invariant_except_break
            chain_items(args[0]@) == view_terms(elements@) + chain_items(current@),
        ensures
            chain_items(args[0]@) == view_terms(elements@),
        decreases current,
    {
        match current {
            Term::List(head, tail) => {
                let ghost before = view_terms(elements@);
                elements.push((**head).clone());
                proof {
                    assert(view_terms(elements@) =~= before.push(head@));
                    assert(before + (seq![head@] + chain_items(tail@)) =~= before.push(head@) + chain_items(
                        tail@,
                    ));
                }
                current = &**tail;
            },
            _ => {
                assert(view_terms(elements@) + Seq::<TermView>::empty() =~= view_terms(elements@));
                break ;
            },
        }
    }
    let var = match &args[1] {
        Term::Variable(v) => v,
        _ => {
            return None;
        },
    };
    let mut reversed: Vec<Term> = Vec::new();
    let mut i: usize = elements.len();
    while i > 0
        invariant
            i <= elements.len(),
            reversed.len() == elements.len() - i,
            forall|j: int| 0 <= j < reversed.len() ==> reversed[j]@ == elements[elements.len() - 1 - j]@,
        decreases i,
    {
        i -= 1;
        reversed.push(elements[i].clone());
    }
    assert(view_terms(reversed@) =~= view_terms(elements@).reverse());
    let reversed_list = Term::list_from_vec(reversed);
    Some(bind_one(var, reversed_list))
}

/// The builtin `max/3`.
pub fn builtin_max(args: &[Term]) -> (outcome: Option<Substitution>)
    ensures
        bindings_of(outcome) == extreme_outcome(view_terms(args@), true),
{
    extreme(args, true)
}

/// The builtin `min/3`.
pub fn builtin_min(args: &[Term]) -> (outcome: Option<Substitution>)
    ensures
        bindings_of(outcome) == extreme_outcome(view_terms(args@), false),
{
    extreme(args, false)
}

/// Binds the variable to the greater or the lesser of the two integers.
fn extreme(args: &[Term], greatest: bool) -> (outcome: Option<Substitution>)
    ensures
        bindings_of(outcome) == extreme_outcome(view_terms(args@), greatest),
{
    if args.len() != 3 {
        return None;
    }
    proof {
        let views = view_terms(args@);
        assert(views[0] == args[0]@ && views[1] == args[1]@ && views[2] == args[2]@);
    }
    let left = match &args[0] {
        Term::Integer(n) => *n,
        _ => {
            return None;
        },
    };
    let right = match &args[1] {
        Term::Integer(n) => *n,
        _ => {
            return None;
        },
    };
    let var = match &args[2] {
        Term::Variable(v) => v,
        _ => {
            return None;
        },
    };
    let chosen = if (left >= right) == greatest {
        left
    } else {
        right
    };
    Some(bind_one(var, Term::Integer(chosen)))
}

/// The builtin `succ/2`.
pub fn builtin_succ(args: &[Term]) -> (outcome: Option<Substitution>)
    ensures
        bindings_of(outcome) == succ_outcome(view_terms(args@)),
{
    if args.len() != 2 {
        return None;
    }
    proof {
        let views = view_terms(args@);
        assert(views[0] == args[0]@ && views[1] == args[1]@);
    }
    let number = match &args[0] {
        Term::Integer(n) => *n,
        _ => {
            return None;
        },
    };
    let var = match &args[1] {
        Term::Variable(v) => v,
        _ => {
            return None;
        },
    };
    if number == i64::MAX {
        return None;
    }
    Some(bind_one(var, Term::Integer(number + 1)))
}

/// The builtin `sort/2`.
pub fn builtin_sort(args: &[Term]) -> (outcome: Option<Substitution>)
    ensures
        bindings_of(outcome) == sort_outcome(view_terms(args@)),
{
    if args.len() != 2 {
        return None;
    }
    proof {
        let views = view_terms(args@);
        assert(views[0] == args[0]@ && views[1] == args[1]@);
    }
    let var = match &args[1] {
        Term::Variable(v) => v,
        _ => {
            return None;
        },
    };
    let vec = match args[0].to_vec() {
        Some(v) => v,
        None => {
            return None;
        },
    };
    let ghost items = view_terms(vec@);
    let mut values: Vec<i64> = Vec::new();
    let mut i: usize = 0;
    while i < vec.len()
        invariant
            i <= vec.len(),
            items == view_terms(vec@),
            view_terms(args@).len() == 2,
            list_items(view_terms(args@)[0]) == Some(items),
            view_terms(args@)[1] == TermView::Variable(var@),
            values.len() == i,
            forall|j: int| 0 <= j < i ==> (#[trigger] items[j]) is Integer && items[j]->Integer_0 == values[j],
        decreases vec.len() - i,
    {
        match &vec[i] {
            Term::Integer(n) => {
                assert(items[i as int] == vec[i as int]@);
                values.push(*n);
            },
            _ => {
                assert(items[i as int] == vec[i as int]@);
                assert(!(items[i as int] is Integer));
                return None;
            },
        }
        i += 1;
    }
    assert(values@ =~= integers_of(items));
    let ghost unsorted = values@;
    sort_integers(&mut values);
    proof {
        assert(vstd::relations::total_ordering(at_most()));
        unsorted.lemma_sort_by_ensures(at_most());
        vstd::seq_lib::lemma_sorted_unique(values@, unsorted.sort_by(at_most()), at_most());
    }
    let mut sorted_terms: Vec<Term> = Vec::new();
    let mut k: usize = 0;
    while k < values.len()
        invariant
            k <= values.len(),
            sorted_terms.len() == k,
            forall|j: int| 0 <= j < k ==> sorted_terms[j]@ == TermView::Integer(values[j]),
        decreases values.len() - k,
    {
        sorted_terms.push(Term::Integer(values[k]));
        k += 1;
    }
    assert(view_terms(sorted_terms@) =~= integer_terms(values@));
    let sorted_term = Term::list_from_vec(sorted_terms);
    Some(bind_one(var, sorted_term))
}

} // verus!
