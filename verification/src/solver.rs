//! The resolution engine: goal-directed search over a clause database with
//! builtin predicates, clause renaming and a stack of deferred alternatives.

use vstd::prelude::*;
use crate::arithmetic::{
    evaluate_arithmetic,
    evaluate_relation,
    evaluated,
    is_relational,
    is_relational_operator,
    related,
};
use crate::backtracking::{BacktrackingStack, ChoicePoint, ChoiceView};
use crate::builtins::{
    append_outcome,
    between_outcome,
    bindings_of,
    builtin_append,
    builtin_between,
    builtin_length,
    builtin_max,
    builtin_member,
    builtin_min,
    builtin_reverse,
    builtin_sort,
    builtin_succ,
    extreme_outcome,
    length_outcome,
    member_outcome,
    no_bindings,
    one_binding,
    reverse_outcome,
    sort_outcome,
    succ_outcome,
};
use crate::database::Database;
use crate::environment::Environment;
use crate::term_map::agree;
use crate::terms::{
    applied_expression,
    expression_resolves,
    view_terms,
    Clause,
    ClauseView,
    Expression,
    ExpressionView,
    Term,
    TermView,
};
use crate::text::{digits, push_digits, same_text};
use crate::unification::{unified, unify, Bindings, Substitution};

verus! {

/// A variable name with a suffix: the name, an underscore and the suffix in
/// decimal.
pub open spec fn renamed_name(name: Seq<char>, suffix: nat) -> Seq<char> {
    name + "_"@ + digits(suffix)
}

/// Renaming keeps variables apart: two renamed names are the same only
/// where both the names and the suffixes are. So clauses renamed with
/// different suffixes share no variable, and one clause's variables stay
/// distinct.
pub proof fn lemma_renamed_names_apart(x: Seq<char>, i: nat, y: Seq<char>, j: nat)
    requires
        renamed_name(x, i) == renamed_name(y, j),
    ensures
        x == y,
        i == j,
{
    reveal_strlit("_");
    crate::text::lemma_digits_are_digits(i);
    crate::text::lemma_digits_are_digits(j);
    let a = renamed_name(x, i);
    let b = renamed_name(y, j);
    let di = digits(i);
    let dj = digits(j);
    assert("_"@ =~= seq!['_']);
    assert(a.len() == x.len() + 1 + di.len());
    assert(b.len() == y.len() + 1 + dj.len());
    if di.len() < dj.len() {
        let at = a.len() - 1 - di.len();
        assert(a[at] == '_');
        assert(b[at] == dj[at - y.len() - 1]);
    } else if dj.len() < di.len() {
        let at = b.len() - 1 - dj.len();
        assert(b[at] == '_');
        assert(a[at] == di[at - x.len() - 1]);
    } else {
        assert(x.len() == y.len());
        assert(di =~= dj) by {
            assert forall|k: int| 0 <= k < di.len() implies di[k] == dj[k] by {
                assert(a[x.len() + 1 + k] == di[k]);
                assert(b[y.len() + 1 + k] == dj[k]);
            }
        }
        assert(x =~= y) by {
            assert forall|k: int| 0 <= k < x.len() implies x[k] == y[k] by {
                assert(a[k] == x[k]);
                assert(b[k] == y[k]);
            }
        }
        crate::text::lemma_digits_differ(i, j);
    }
}

/// The terms of a sequence, each with its variables renamed.
pub open spec fn renamed_terms(terms: Seq<TermView>, suffix: nat) -> Seq<TermView>
    decreases terms, 0nat,
{
    Seq::new(
        terms.len(),
        |i: int|
            if 0 <= i < terms.len() {
                renamed(terms[i], suffix)
            } else {
                TermView::EmptyList
            },
    )
}

/// The term with every variable given the suffix and everything else as it
/// is.
pub open spec fn renamed(t: TermView, suffix: nat) -> TermView
    decreases t, 1nat,
{
    match t {
        TermView::Variable(name) => TermView::Variable(renamed_name(name, suffix)),
        TermView::Compound(name, args) => TermView::Compound(name, renamed_terms(args, suffix)),
        TermView::List(head, tail) => TermView::List(
            Box::new(renamed(*head, suffix)),
            Box::new(renamed(*tail, suffix)),
        ),
        _ => t,
    }
}

/// The body with every variable given the suffix.
pub open spec fn renamed_expression(e: ExpressionView, suffix: nat) -> ExpressionView
    decreases e,
{
    match e {
        ExpressionView::Term(term) => ExpressionView::Term(renamed(term, suffix)),
        ExpressionView::Conjunct(left, right) => ExpressionView::Conjunct(
            Box::new(renamed_expression(*left, suffix)),
            Box::new(renamed_expression(*right, suffix)),
        ),
    }
}

/// The clause with every variable given the suffix.
pub open spec fn renamed_clause(clause: ClauseView, suffix: nat) -> ClauseView {
    match clause {
        ClauseView::Fact(head) => ClauseView::Fact(renamed(head, suffix)),
        ClauseView::Rule(head, body) => ClauseView::Rule(
            renamed(head, suffix),
            renamed_expression(body, suffix),
        ),
    }
}

/// Gives every variable of `term` the suffix.
pub fn rename_vars(term: &Term, suffix: usize) -> (result: Term)
    ensures
        result@ == renamed(term@, suffix as nat),
    decreases term,
{
    match term {
        Term::Variable(var) => {
            let mut name = var.clone();
            name.append("_");
            push_digits(&mut name, suffix as u128);
            Term::Variable(name)
        },
        Term::Compound(name, args) => {
            let mut results: Vec<Term> = Vec::new();
            let mut i: usize = 0;
            while i < args.len()
                invariant
                    *term matches Term::Compound(_, a) && a == *args,
                    i <= args.len(),
                    results.len() == i,
                    forall|j: int| 0 <= j < i ==> results[j]@ == renamed(args[j]@, suffix as nat),
                decreases args.len() - i,
            {
                proof {
                    vstd::std_specs::vec::axiom_vec_index_decreases(*args, i as int);
                }
                results.push(rename_vars(&args[i], suffix));
                i += 1;
            }
            proof {
                let views = view_terms(args@);
                assert forall|j: int| 0 <= j < views.len() implies renamed_terms(views, suffix as nat)[j]
                    == view_terms(results@)[j] by {
                    assert(views[j] == args[j]@);
                }
                assert(view_terms(results@) =~= renamed_terms(views, suffix as nat));
            }
            Term::Compound(name.clone(), results)
        },
        Term::List(head, tail) => Term::List(
            Box::new(rename_vars(head, suffix)),
            Box::new(rename_vars(tail, suffix)),
        ),
        _ => term.clone(),
    }
}

/// Gives every variable of the body the suffix.
pub fn rename_expr(expr: &Expression, suffix: usize) -> (result: Expression)
    ensures
        result@ == renamed_expression(expr@, suffix as nat),
    decreases expr,
{
    match expr {
        Expression::Term(term) => Expression::Term(rename_vars(term, suffix)),
        Expression::Conjunct(lhs, rhs) => Expression::Conjunct(
            Box::new(rename_expr(lhs, suffix)),
            Box::new(rename_expr(rhs, suffix)),
        ),
    }
}

/// Gives every variable of the clause the suffix.
pub fn rename_clause_variables(clause: &Clause, suffix: usize) -> (result: Clause)
    ensures
        result@ == renamed_clause(clause@, suffix as nat),
{
    match clause {
        Clause::Fact(term) => Clause::Fact(rename_vars(term, suffix)),
        Clause::Rule(head, body) => Clause::Rule(rename_vars(head, suffix), rename_expr(body, suffix)),
    }
}

/// Renaming keeps the shape by which candidates are found: a renamed head
/// may unify with a goal exactly when the head itself may. So the clauses
/// that a scan can match are among the database's candidates for the goal.
pub proof fn lemma_renamed_keeps_shape(head: TermView, goal: TermView, suffix: nat)
    ensures
        crate::database::may_unify(renamed(head, suffix), goal) == crate::database::may_unify(head, goal),
{
    match head {
        TermView::Compound(_, args) => {
            assert(renamed_terms(args, suffix).len() == args.len());
        },
        _ => {},
    }
}

/// What `is/2` answers: with a variable on the left, the variable bound to
/// the value of the right side; with that very integer on the left, nothing
/// bound; failure when the right side has no value or the left is anything
/// else.
pub open spec fn is_outcome(args: Seq<TermView>) -> Option<Bindings> {
    if args.len() != 2 {
        None
    } else {
        match evaluated(args[1]) {
            Some(value) => match args[0] {
                TermView::Variable(var) => Some(one_binding(var, TermView::Integer(value))),
                TermView::Integer(left) => if left == value {
                    Some(no_bindings())
                } else {
                    None
                },
                _ => None,
            },
            None => None,
        }
    }
}

/// What a relational predicate answers: nothing bound when the comparison
/// holds, failure otherwise.
pub open spec fn relation_outcome(name: Seq<char>, args: Seq<TermView>) -> Option<Bindings> {
    if args.len() == 2 && related(name, args[0], args[1]) == Some(true) {
        Some(no_bindings())
    } else {
        None
    }
}

/// The answer of the builtin predicate that `name` and the number of
/// arguments select; `None` when they select no builtin.
pub open spec fn builtin_outcome(name: Seq<char>, args: Seq<TermView>) -> Option<Option<Bindings>> {
    if name == "is"@ && args.len() == 2 {
        Some(is_outcome(args))
    } else if is_relational(name) && args.len() == 2 {
        Some(relation_outcome(name, args))
    } else if name == "append"@ && args.len() == 3 {
        Some(append_outcome(args))
    } else if name == "member"@ && args.len() == 2 {
        Some(member_outcome(args))
    } else if name == "between"@ && args.len() == 3 {
        Some(between_outcome(args))
    } else if name == "succ"@ && args.len() == 2 {
        Some(succ_outcome(args))
    } else if name == "min"@ && args.len() == 3 {
        Some(extreme_outcome(args, false))
    } else if name == "max"@ && args.len() == 3 {
        Some(extreme_outcome(args, true))
    } else if name == "reverse"@ && args.len() == 2 {
        Some(reverse_outcome(args))
    } else if name == "length"@ && args.len() == 2 {
        Some(length_outcome(args))
    } else if name == "sort"@ && args.len() == 2 {
        Some(sort_outcome(args))
    } else {
        None
    }
}

/// The bindings of an answer that a builtin may have given.
pub open spec fn builtin_bindings(answer: Option<Option<Substitution>>) -> Option<Option<Bindings>> {
    match answer {
        Some(outcome) => Some(bindings_of(outcome)),
        None => None,
    }
}

/// The builtin `is/2`.
pub fn builtin_is(args: &[Term]) -> (outcome: Option<Substitution>)
    ensures
        bindings_of(outcome) == is_outcome(view_terms(args@)),
{
    if args.len() != 2 {
        return None;
    }
    proof {
        let views = view_terms(args@);
        assert(views[0] == args[0]@ && views[1] == args[1]@);
    }
    let value = match evaluate_arithmetic(&args[1]) {
        Some(v) => v,
        None => {
            return None;
        },
    };
    match &args[0] {
        Term::Variable(var) => {
            let mut result = Substitution::new();
            result.extend(var.clone(), Term::Integer(value));
            Some(result)
        },
        Term::Integer(left) => if *left == value {
            Some(Substitution::new())
        } else {
            None
        },
        _ => None,
    }
}

/// Answers the goal `name(args)` if it is a builtin predicate.
pub fn solve_builtin(name: &str, args: &[Term]) -> (answer: Option<Option<Substitution>>)
    ensures
        builtin_bindings(answer) == builtin_outcome(name@, view_terms(args@)),
{
    proof {
        assert(view_terms(args@).len() == args.len());
    }
    if same_text(name, "is") && args.len() == 2 {
        Some(builtin_is(args))
    } else if is_relational_operator(name) && args.len() == 2 {
        proof {
            let views = view_terms(args@);
            assert(views[0] == args[0]@ && views[1] == args[1]@);
        }
        match evaluate_relation(name, &args[0], &args[1]) {
            Some(true) => Some(Some(Substitution::new())),
            _ => Some(None),
        }
    } else if same_text(name, "append") && args.len() == 3 {
        Some(builtin_append(args))
    } else if same_text(name, "member") && args.len() == 2 {
        Some(builtin_member(args))
    } else if same_text(name, "between") && args.len() == 3 {
        Some(builtin_between(args))
    } else if same_text(name, "succ") && args.len() == 2 {
        Some(builtin_succ(args))
    } else if same_text(name, "min") && args.len() == 3 {
        Some(builtin_min(args))
    } else if same_text(name, "max") && args.len() == 3 {
        Some(builtin_max(args))
    } else if same_text(name, "reverse") && args.len() == 2 {
        Some(builtin_reverse(args))
    } else if same_text(name, "length") && args.len() == 2 {
        Some(builtin_length(args))
    } else if same_text(name, "sort") && args.len() == 2 {
        Some(builtin_sort(args))
    } else {
        None
    }
}

/// Where a search stands when it ends: the answer, the stack of deferred
/// alternatives and the next unused renaming suffix.
pub struct Outcome {
    pub answer: Option<Bindings>,
    pub stack: Seq<ChoiceView>,
    pub counter: usize,
}

/// A rule, renamed, whose head unified with the goal.
pub struct RuleView {
    pub head: TermView,
    pub body: ExpressionView,
}

/// What scanning the database for a goal finds.
pub enum Scan {
    /// A fact unified: its bindings, and the suffix it was renamed with.
    Fact(Bindings, usize),
    /// No fact unified: the rules whose heads did, in database order, and the
    /// next unused suffix.
    Rules(Seq<RuleView>, usize),
    /// The suffixes ran out before the scan ended.
    OutOfSuffixes,
}

/// Scans the clauses from position `i` on. Each clause is renamed with the
/// current suffix and its head unified with the goal on top of no bindings;
/// the first fact that unifies ends the scan, a rule that unifies is
/// recorded, and the suffix goes up by one after each clause passed.
pub open spec fn scanned(goal: TermView, db: Seq<ClauseView>, i: int, counter: usize, found: Seq<RuleView>) -> Scan
    decreases db.len() - i,
{
    if !(0 <= i < db.len()) {
        Scan::Rules(found, counter)
    } else {
        match renamed_clause(db[i], counter as nat) {
            ClauseView::Fact(fact) => match unified(fact, goal, no_bindings()) {
                Some(bindings) => Scan::Fact(bindings, counter),
                None => if counter == usize::MAX {
                    Scan::OutOfSuffixes
                } else {
                    scanned(goal, db, i + 1, (counter + 1) as usize, found)
                },
            },
            ClauseView::Rule(head, body) => {
                let found = if unified(head, goal, no_bindings()) is Some {
                    found.push(RuleView { head, body })
                } else {
                    found
                };
                if counter == usize::MAX {
                    Scan::OutOfSuffixes
                } else {
                    scanned(goal, db, i + 1, (counter + 1) as usize, found)
                }
            },
        }
    }
}

/// A scan never lowers the suffix, keeps the rules found before it, and has
/// raised the suffix whenever it found another rule.
pub proof fn lemma_scanned_counter(goal: TermView, db: Seq<ClauseView>, i: int, counter: usize, found: Seq<RuleView>)
    ensures
        match scanned(goal, db, i, counter, found) {
            Scan::Fact(_, c) => c >= counter,
            Scan::Rules(rules, c) => c >= counter && rules.len() >= found.len() && (rules.len()
                > found.len() ==> c > counter),
            Scan::OutOfSuffixes => true,
        },
    decreases db.len() - i,
{
    if 0 <= i < db.len() && counter < usize::MAX {
        match renamed_clause(db[i], counter as nat) {
            ClauseView::Fact(fact) => {
                lemma_scanned_counter(goal, db, i + 1, (counter + 1) as usize, found);
            },
            ClauseView::Rule(head, body) => {
                let next = if unified(head, goal, no_bindings()) is Some {
                    found.push(RuleView { head, body })
                } else {
                    found
                };
                lemma_scanned_counter(goal, db, i + 1, (counter + 1) as usize, next);
            },
        }
    }
}

/// The number of conjunctions in a body.
pub open spec fn conjunctions(e: ExpressionView) -> nat
    decreases e,
{
    match e {
        ExpressionView::Term(_) => 0,
        ExpressionView::Conjunct(left, right) => 1 + conjunctions(*left) + conjunctions(*right),
    }
}

/// Applying bindings to a body keeps its conjunctions.
pub proof fn lemma_apply_keeps_conjunctions(m: Bindings, e: ExpressionView)
    ensures
        conjunctions(applied_expression(m, e)) == conjunctions(e),
    decreases e,
{
    match e {
        ExpressionView::Term(_) => {},
        ExpressionView::Conjunct(left, right) => {
            lemma_apply_keeps_conjunctions(m, *left);
            lemma_apply_keeps_conjunctions(m, *right);
        },
    }
}

/// Whether a search that began at suffix `counter` with `depth` deferred
/// alternatives has since used a suffix or, failing that, left no more
/// alternatives than it found.
pub open spec fn advanced(counter: usize, depth: nat, later: Outcome) -> bool {
    later.counter > counter || (later.counter == counter && later.stack.len() <= depth)
}

/// The stack with `count` more choice points on top, each holding `goal` as
/// its one alternative and no bindings.
pub open spec fn deferred(stack: Seq<ChoiceView>, goal: TermView, count: nat) -> Seq<ChoiceView> {
    stack + Seq::new(count, |i: int| ChoiceView { env: no_bindings(), alternatives: seq![goal] })
}

/// The bindings of a rule that succeeded: those of its head together with
/// those of its body, or none at all where the two disagree.
pub open spec fn rule_bindings(head: Bindings, body: Bindings) -> Bindings {
    if agree(head, body) {
        head.union_prefer_right(body)
    } else {
        no_bindings()
    }
}

/// The outcome of solving one goal.
///
/// A builtin predicate answers by itself. Otherwise the database is scanned:
/// the first fact that unifies answers with its bindings. Failing that, the
/// goal is deferred once for every matching rule after the first, and the
/// body of the first, with the head's bindings applied, is solved under the
/// next suffix; its bindings are joined with the head's. A goal that is no
/// compound, that no clause matches, or whose suffixes run out, fails.
pub open spec fn solved_term(goal: TermView, db: Seq<ClauseView>, stack: Seq<ChoiceView>, counter: usize) -> Outcome
    decreases usize::MAX - counter, stack.len(), 0nat, 0nat,
{
    match goal {
        TermView::Compound(name, args) => match builtin_outcome(name, args) {
            Some(answer) => Outcome { answer, stack, counter },
            None => match scanned(goal, db, 0, counter, Seq::empty()) {
                Scan::Fact(bindings, c) => Outcome { answer: Some(bindings), stack, counter: c },
                Scan::OutOfSuffixes => Outcome { answer: None, stack, counter: usize::MAX },
                Scan::Rules(rules, c) => if rules.len() == 0 {
                    Outcome { answer: None, stack, counter: c }
                } else {
                    let stack = deferred(stack, goal, (rules.len() - 1) as nat);
                    match unified(rules[0].head, goal, no_bindings()) {
                        Some(head) => if !expression_resolves(head, rules[0].body) || c == usize::MAX {
                            Outcome { answer: None, stack, counter: c }
                        } else {
                            proof {
                                lemma_scanned_counter(goal, db, 0, counter, Seq::empty());
                            }
                            let inner = solved(
                                applied_expression(head, rules[0].body),
                                db,
                                stack,
                                (c + 1) as usize,
                            );
                            Outcome {
                                answer: match inner.answer {
                                    Some(bindings) => Some(rule_bindings(head, bindings)),
                                    None => None,
                                },
                                stack: inner.stack,
                                counter: inner.counter,
                            }
                        },
                        None => Outcome { answer: None, stack, counter: c },
                    }
                },
            },
        },
        _ => Outcome { answer: None, stack, counter },
    }
}

/// The outcome of backtracking: the most recent choice point that holds an
/// alternative is taken off the stack, with everything above it, and its
/// first alternative is solved as a goal of its own. With no such choice
/// point the search fails.
pub open spec fn retried(db: Seq<ClauseView>, stack: Seq<ChoiceView>, counter: usize) -> Outcome
    decreases usize::MAX - counter, stack.len(), 0nat, 2nat,
{
    if stack.len() == 0 {
        Outcome { answer: None, stack, counter }
    } else if stack.last().alternatives.len() > 0 {
        solved(ExpressionView::Term(stack.last().alternatives[0]), db, stack.drop_last(), counter)
    } else {
        retried(db, stack.drop_last(), counter)
    }
}

/// The outcome of solving a body.
///
/// A single goal is solved as such. A conjunction solves its left side, then
/// its right side with the left side's bindings applied, and answers with
/// the two sets of bindings merged, which fails where they disagree. Where
/// either side fails, or the bindings cannot be applied, the search
/// backtracks.
///
/// The two tests of `advanced` always hold (`lemma_solved_advances`); they
/// make the definition well-founded and decide nothing.
pub open spec fn solved(query: ExpressionView, db: Seq<ClauseView>, stack: Seq<ChoiceView>, counter: usize) -> Outcome
    decreases usize::MAX - counter, stack.len(), conjunctions(query), 1nat,
{
    match query {
        ExpressionView::Term(goal) => solved_term(goal, db, stack, counter),
        ExpressionView::Conjunct(left, right) => {
            let first = solved(*left, db, stack, counter);
            if !advanced(counter, stack.len(), first) {
                first
            } else {
                match first.answer {
                    None => retried(db, first.stack, first.counter),
                    Some(left_bindings) => if !expression_resolves(left_bindings, *right) {
                        retried(db, first.stack, first.counter)
                    } else {
                        proof {
                            lemma_apply_keeps_conjunctions(left_bindings, *right);
                        }
                        let second = solved(
                            applied_expression(left_bindings, *right),
                            db,
                            first.stack,
                            first.counter,
                        );
                        if !advanced(first.counter, first.stack.len(), second) {
                            second
                        } else {
                            match second.answer {
                                Some(right_bindings) => Outcome {
                                    answer: if agree(left_bindings, right_bindings) {
                                        Some(left_bindings.union_prefer_right(right_bindings))
                                    } else {
                                        None
                                    },
                                    stack: second.stack,
                                    counter: second.counter,
                                },
                                None => retried(db, second.stack, second.counter),
                            }
                        }
                    },
                }
            }
        },
    }
}

/// Solving one goal advances: it uses a suffix or leaves the stack no
/// deeper than it found it.
pub proof fn lemma_solved_term_advances(goal: TermView, db: Seq<ClauseView>, stack: Seq<ChoiceView>, counter: usize)
    ensures
        advanced(counter, stack.len(), solved_term(goal, db, stack, counter)),
    decreases usize::MAX - counter, stack.len(), 0nat, 0nat,
{
    match goal {
        TermView::Compound(name, args) => {
            if builtin_outcome(name, args) is None {
                lemma_scanned_counter(goal, db, 0, counter, Seq::empty());
                match scanned(goal, db, 0, counter, Seq::empty()) {
                    Scan::Rules(rules, c) => {
                        if rules.len() > 0 {
                            let later = deferred(stack, goal, (rules.len() - 1) as nat);
                            match unified(rules[0].head, goal, no_bindings()) {
                                Some(head) => {
                                    if expression_resolves(head, rules[0].body) && c < usize::MAX {
                                        lemma_solved_advances(
                                            applied_expression(head, rules[0].body),
                                            db,
                                            later,
                                            (c + 1) as usize,
                                        );
                                    }
                                },
                                None => {},
                            }
                        }
                    },
                    _ => {},
                }
            }
        },
        _ => {},
    }
}

/// Backtracking advances.
pub proof fn lemma_retried_advances(db: Seq<ClauseView>, stack: Seq<ChoiceView>, counter: usize)
    ensures
        advanced(counter, stack.len(), retried(db, stack, counter)),
    decreases usize::MAX - counter, stack.len(), 0nat, 2nat,
{
    if stack.len() > 0 {
        if stack.last().alternatives.len() > 0 {
            lemma_solved_advances(
                ExpressionView::Term(stack.last().alternatives[0]),
                db,
                stack.drop_last(),
                counter,
            );
        } else {
            lemma_retried_advances(db, stack.drop_last(), counter);
        }
    }
}

/// Solving a body advances: it uses a suffix or leaves the stack no deeper
/// than it found it. So a conjunction always goes on from its left side to
/// its right side or to backtracking.
pub proof fn lemma_solved_advances(query: ExpressionView, db: Seq<ClauseView>, stack: Seq<ChoiceView>, counter: usize)
    ensures
        advanced(counter, stack.len(), solved(query, db, stack, counter)),
    decreases usize::MAX - counter, stack.len(), conjunctions(query), 1nat,
{
    match query {
        ExpressionView::Term(goal) => {
            lemma_solved_term_advances(goal, db, stack, counter);
        },
        ExpressionView::Conjunct(left, right) => {
            lemma_solved_advances(*left, db, stack, counter);
            let first = solved(*left, db, stack, counter);
            match first.answer {
                None => {
                    lemma_retried_advances(db, first.stack, first.counter);
                },
                Some(left_bindings) => {
                    if !expression_resolves(left_bindings, *right) {
                        lemma_retried_advances(db, first.stack, first.counter);
                    } else {
                        lemma_apply_keeps_conjunctions(left_bindings, *right);
                        let goal = applied_expression(left_bindings, *right);
                        lemma_solved_advances(goal, db, first.stack, first.counter);
                        let second = solved(goal, db, first.stack, first.counter);
                        if second.answer is None {
                            lemma_retried_advances(db, second.stack, second.counter);
                        }
                    }
                },
            }
        },
    }
}

/// A rule, renamed, whose head unified with the goal.
struct Candidate {
    head: Term,
    body: Expression,
}

/// The values of a sequence of candidates, position by position.
spec fn view_candidates(candidates: Seq<Candidate>) -> Seq<RuleView> {
    Seq::new(candidates.len(), |i: int| RuleView { head: candidates[i].head@, body: candidates[i].body@ })
}

/// Whether the call left answer, stack and suffix as `outcome` says.
pub open spec fn ended_as(
    outcome: Outcome,
    answer: Option<Substitution>,
    stack: Seq<ChoiceView>,
    counter: usize,
) -> bool {
    &&& bindings_of(answer) == outcome.answer
    &&& stack == outcome.stack
    &&& counter == outcome.counter
}

/// Solves one goal: by a builtin, by the first fact that unifies, or by
/// the first rule that does.
fn solve_term(term: &Term, db: &Database, back_stack: &mut BacktrackingStack, counter: &mut usize) -> (answer:
    Option<Substitution>)
    ensures
        ended_as(
            solved_term(term@, db@, old(back_stack)@, *old(counter)),
            answer,
            final(back_stack)@,
            *final(counter),
        ),
    decreases usize::MAX - *old(counter), old(back_stack)@.len(), 0nat, 0nat,
{
    let (name, args) = match term {
        Term::Compound(name, args) => (name, args),
        _ => {
            return None;
        },
    };
    match solve_builtin(name.as_str(), args.as_slice()) {
        Some(answer) => {
            return answer;
        },
        None => {},
    }
    let ghost start = *counter;
    let ghost stack0 = back_stack@;
    let mut candidates: Vec<Candidate> = Vec::new();
    let mut i: usize = 0;
    assert(view_candidates(candidates@) =~= Seq::empty());
    while i < db.clauses.len()
        invariant
            i <= db.clauses.len(),
            stack0 == old(back_stack)@,
            start == *old(counter),
            back_stack@ == stack0,
            start <= *counter,
            candidates.len() > 0 ==> start < *counter,
            scanned(term@, db@, 0, start, Seq::empty()) == scanned(
                term@,
                db@,
                i as int,
                *counter,
                view_candidates(candidates@),
            ),
            term@ matches TermView::Compound(n, a) && builtin_outcome(n, a) is None,
        decreases db.clauses.len() - i,
    {
        assert(db@[i as int] == db.clauses[i as int]@);
        let renamed = rename_clause_variables(&db.clauses[i], *counter);
        match renamed {
            Clause::Fact(fact) => {
                let mut attempt = Substitution::new();
                if unify(&fact, term, &mut attempt) {
                    return Some(attempt);
                }
            },
            Clause::Rule(head, body) => {
                let mut attempt = Substitution::new();
                if unify(&head, term, &mut attempt) {
                    let ghost before = view_candidates(candidates@);
                    candidates.push(Candidate { head, body });
                    assert(view_candidates(candidates@) =~= before.push(
                        RuleView { head: head@, body: body@ },
                    ));
                }
            },
        }
        if *counter == usize::MAX {
            return None;
        }
        *counter += 1;
        i += 1;
    }
    if candidates.len() == 0 {
        return None;
    }
    let ghost rules = view_candidates(candidates@);
    let mut k: usize = 1;
    assert(back_stack@ =~= deferred(stack0, term@, 0));
    while k < candidates.len()
        invariant
            1 <= k <= candidates.len(),
            back_stack@ == deferred(stack0, term@, (k - 1) as nat),
        decreases candidates.len() - k,
    {
        let alternatives = vec![term.clone()];
        assert(view_terms(alternatives@) =~= seq![term@]);
        back_stack.push(ChoicePoint { env: Environment::new(), alternatives });
        assert(back_stack@ =~= deferred(stack0, term@, k as nat));
        k += 1;
    }
    let first = &candidates[0];
    assert(rules[0] == RuleView { head: first.head@, body: first.body@ });
    let mut local_subs = Substitution::new();
    if !unify(&first.head, term, &mut local_subs) {
        return None;
    }
    let applied_body = match first.body.try_apply(&local_subs) {
        Some(body) => body,
        None => {
            return None;
        },
    };
    if *counter == usize::MAX {
        return None;
    }
    *counter += 1;
    match solve(&applied_body, db, back_stack, counter) {
        Some(body_subs) => match local_subs.merge(&body_subs) {
            Some(merged) => Some(merged),
            None => Some(Substitution::new()),
        },
        None => None,
    }
}

/// Backtracks: solves the first alternative of the most recent choice
/// point that has one.
fn retry(db: &Database, back_stack: &mut BacktrackingStack, counter: &mut usize) -> (answer: Option<
    Substitution,
>)
    ensures
        ended_as(
            retried(db@, old(back_stack)@, *old(counter)),
            answer,
            final(back_stack)@,
            *final(counter),
        ),
    decreases usize::MAX - *old(counter), old(back_stack)@.len(), 0nat, 2nat,
{
    match back_stack.pop() {
        Some(choice) => {
            if choice.alternatives.len() > 0 {
                assert(choice@.alternatives[0] == choice.alternatives[0]@);
                let goal = Expression::Term(choice.alternatives[0].clone());
                solve(&goal, db, back_stack, counter)
            } else {
                retry(db, back_stack, counter)
            }
        },
        None => None,
    }
}

/// Solves `query` against `db`. Deferred alternatives go on `back_stack`, and
/// `counter` hands out the suffixes that clauses are renamed with.
pub fn solve(query: &Expression, db: &Database, back_stack: &mut BacktrackingStack, counter: &mut usize) -> (answer:
    Option<Substitution>)
    ensures
        ended_as(
            solved(query@, db@, old(back_stack)@, *old(counter)),
            answer,
            final(back_stack)@,
            *final(counter),
        ),
    decreases usize::MAX - *old(counter), old(back_stack)@.len(), conjunctions(query@), 1nat,
{
    match query {
        Expression::Term(term) => solve_term(term, db, back_stack, counter),
        Expression::Conjunct(lhs, rhs) => {
            proof {
                lemma_solved_advances(lhs@, db@, back_stack@, *counter);
            }
            match solve(lhs, db, back_stack, counter) {
                Some(lhs_subs) => match rhs.try_apply(&lhs_subs) {
                    Some(applied_rhs) => {
                        proof {
                            lemma_apply_keeps_conjunctions(lhs_subs@, rhs@);
                            lemma_solved_advances(applied_rhs@, db@, back_stack@, *counter);
                        }
                        match solve(&applied_rhs, db, back_stack, counter) {
                            Some(rhs_subs) => {
                                return lhs_subs.merge(&rhs_subs);
                            },
                            None => {},
                        }
                    },
                    None => {},
                },
                None => {},
            }
            retry(db, back_stack, counter)
        },
    }
}

/// The answer that retrying gives: the choice points are taken off the
/// stack, most recent first, and the first alternative of each is solved as
/// a goal of its own, until one of them succeeds or none is left.
pub open spec fn drained(db: Seq<ClauseView>, stack: Seq<ChoiceView>, counter: usize) -> Option<Bindings>
    decreases usize::MAX - counter, stack.len(),
{
    if stack.len() == 0 {
        None
    } else if stack.last().alternatives.len() == 0 {
        drained(db, stack.drop_last(), counter)
    } else {
        proof {
            lemma_solved_advances(
                ExpressionView::Term(stack.last().alternatives[0]),
                db,
                stack.drop_last(),
                counter,
            );
        }
        let retry = solved(ExpressionView::Term(stack.last().alternatives[0]), db, stack.drop_last(), counter);
        match retry.answer {
            Some(bindings) => Some(bindings),
            None => drained(db, retry.stack, retry.counter),
        }
    }
}

/// The answer to a query asked of a database: what solving it from an empty
/// stack and suffix zero gives or, where that fails, what retrying the
/// alternatives it left behind gives.
pub open spec fn answered(query: ExpressionView, db: Seq<ClauseView>) -> Option<Bindings> {
    let first = solved(query, db, Seq::empty(), 0);
    match first.answer {
        Some(bindings) => Some(bindings),
        None => drained(db, first.stack, first.counter),
    }
}

/// Retries the alternatives on the stack until one succeeds or none is
/// left.
fn drain(db: &Database, back_stack: &mut BacktrackingStack, counter: &mut usize) -> (answer: Option<
    Substitution,
>)
    ensures
        bindings_of(answer) == drained(db@, old(back_stack)@, *old(counter)),
{
    loop
        invariant
            drained(db@, old(back_stack)@, *old(counter)) == drained(db@, back_stack@, *counter),
        decreases usize::MAX - *counter, back_stack@.len(),
    {
        let choice = match back_stack.pop() {
            Some(choice) => choice,
            None => {
                return None;
            },
        };
        if choice.alternatives.len() > 0 {
            assert(choice@.alternatives[0] == choice.alternatives[0]@);
            let goal = Expression::Term(choice.alternatives[0].clone());
            proof {
                lemma_solved_advances(goal@, db@, back_stack@, *counter);
            }
            match solve(&goal, db, back_stack, counter) {
                Some(solution) => {
                    return Some(solution);
                },
                None => {},
            }
        }
    }
}

/// Answers a query against a database: solves it with a stack and a
/// counter of its own and, where that fails, retries the alternatives that
/// the search left behind.
///
/// A deferred goal is retried as it stands. A retry that fails may defer the
/// goal once more, and is then repeated under new suffixes for as long as
/// suffixes last.
pub fn solve_query(query: &Expression, db: &Database) -> (answer: Option<Substitution>)
    ensures
        bindings_of(answer) == answered(query@, db@),
{
    let mut back_stack = BacktrackingStack::new();
    let mut counter: usize = 0;
    match solve(query, db, &mut back_stack, &mut counter) {
        Some(solution) => Some(solution),
        None => drain(db, &mut back_stack, &mut counter),
    }
}

} // verus!
