use prolog_interpreter::arithmetic::{combine, evaluate_arithmetic, evaluate_relation, is_relational_operator};
use prolog_interpreter::backtracking::{BacktrackingStack, ChoicePoint};
use prolog_interpreter::builtins::{
    builtin_append, builtin_between, builtin_length, builtin_max, builtin_member, builtin_min,
    builtin_reverse, builtin_sort, builtin_succ,
};
use prolog_interpreter::database::Database;
use prolog_interpreter::environment::Environment;
use prolog_interpreter::solver::{
    builtin_is, rename_clause_variables, rename_expr, rename_vars, solve, solve_builtin, solve_query,
};
use prolog_interpreter::terms::{Clause, Expression, Term};
use prolog_interpreter::unification::{occurs_check, unify, unify_lists, Substitution};

fn atom(name: &str) -> Term {
    Term::Constant(name.to_string())
}

fn var(name: &str) -> Term {
    Term::Variable(name.to_string())
}

fn num(n: i64) -> Term {
    Term::Integer(n)
}

fn compound(name: &str, args: Vec<Term>) -> Term {
    Term::Compound(name.to_string(), args)
}

fn list(items: Vec<Term>) -> Term {
    Term::list_from_vec(items)
}

fn goal(term: Term) -> Expression {
    Expression::Term(term)
}

fn run(db: &Database, query: &Expression) -> Option<Substitution> {
    let mut stack = BacktrackingStack::new();
    let mut counter = 0;
    solve(query, db, &mut stack, &mut counter)
}

#[test]
fn unification_makes_both_terms_equal_under_the_bindings() {
    let a = compound("f", vec![var("X"), compound("g", vec![var("Y")]), list(vec![var("Z"), num(2)])]);
    let b = compound("f", vec![atom("a"), compound("g", vec![num(1)]), list(vec![atom("z"), num(2)])]);
    let mut subs = Substitution::new();
    assert!(unify(&a, &b, &mut subs));
    assert_eq!(subs.apply(&a), subs.apply(&b));
    assert_eq!(subs.apply(&a), b);
}

#[test]
fn unification_through_a_chain_of_variables_is_sound() {
    let a = compound("f", vec![var("X"), var("Y")]);
    let b = compound("f", vec![var("Y"), atom("a")]);
    let mut subs = Substitution::new();
    assert!(unify(&a, &b, &mut subs));
    assert_eq!(subs.get("X"), Some(&var("Y")));
    assert_eq!(subs.get("Y"), Some(&atom("a")));
    assert_eq!(subs.apply(&a), subs.apply(&b));
    assert_eq!(subs.apply(&a), compound("f", vec![atom("a"), atom("a")]));
}

#[test]
fn occurs_check_fails_in_both_orders() {
    let x = var("X");
    let fx = compound("f", vec![var("X")]);
    let mut subs = Substitution::new();
    assert!(!unify(&x, &fx, &mut subs));
    assert!(!unify(&fx, &x, &mut subs));
    assert_eq!(subs.len(), 0);
    let nested = list(vec![num(1), compound("g", vec![var("X")])]);
    assert!(!unify(&x, &nested, &mut subs));
    assert!(occurs_check("X", &nested));
    assert!(!occurs_check("Y", &nested));
    assert!(occurs_check("X", &var("X")));
    assert!(!occurs_check("X", &atom("X")));
}

#[test]
fn rebinding_must_be_consistent() {
    let mut subs = Substitution::new();
    assert!(unify(&var("X"), &atom("a"), &mut subs));
    assert!(!unify(&var("X"), &atom("b"), &mut subs));
    assert_eq!(subs.get("X"), Some(&atom("a")));
    assert!(unify(&var("X"), &atom("a"), &mut subs));
    assert_eq!(subs.len(), 1);
    assert_eq!(subs.get("X"), Some(&atom("a")));
}

#[test]
fn failed_unification_leaves_the_substitution_as_it_was() {
    let mut subs = Substitution::new();
    subs.extend("Q".to_string(), num(9));
    let a = compound("f", vec![var("X"), atom("b")]);
    let b = compound("f", vec![atom("a"), atom("c")]);
    assert!(!unify(&a, &b, &mut subs));
    assert_eq!(subs.len(), 1);
    assert_eq!(subs.get("X"), None);
    assert_eq!(subs.get("Q"), Some(&num(9)));
}

#[test]
fn unify_basic_shapes() {
    let mut subs = Substitution::new();
    assert!(unify(&num(3), &num(3), &mut subs));
    assert!(!unify(&num(3), &num(4), &mut subs));
    assert!(!unify(&atom("a"), &atom("b"), &mut subs));
    assert!(!unify(&atom("a"), &num(1), &mut subs));
    assert!(unify(&Term::EmptyList, &Term::EmptyList, &mut subs));
    assert!(!unify(&Term::EmptyList, &list(vec![num(1)]), &mut subs));
    assert!(!unify(&compound("f", vec![num(1)]), &compound("f", vec![num(1), num(2)]), &mut subs));
    assert_eq!(subs.len(), 0);
    assert!(unify(&atom("a"), &var("V"), &mut subs));
    assert_eq!(subs.get("V"), Some(&atom("a")));
}

#[test]
fn unify_lists_needs_equal_lengths() {
    let mut subs = Substitution::new();
    assert!(!unify_lists(&[var("X")], &[num(1), num(2)], &mut subs));
    assert!(unify_lists(&[var("X"), num(2)], &[num(1), var("Y")], &mut subs));
    assert_eq!(subs.get("X"), Some(&num(1)));
    assert_eq!(subs.get("Y"), Some(&num(2)));
    assert!(!unify_lists(&[var("X"), var("Z")], &[num(5), num(6)], &mut subs));
    assert_eq!(subs.get("Z"), None);
    assert!(unify_lists(&[], &[], &mut subs));
}

#[test]
fn partial_tails_unify_with_longer_lists() {
    let open = Term::List(Box::new(var("H")), Box::new(var("T")));
    let closed = list(vec![num(1), num(2), num(3)]);
    let mut subs = Substitution::new();
    assert!(unify(&open, &closed, &mut subs));
    assert_eq!(subs.get("H"), Some(&num(1)));
    assert_eq!(subs.get("T"), Some(&list(vec![num(2), num(3)])));
}

#[test]
fn merge_detects_conflicts() {
    let mut left = Substitution::new();
    left.extend("X".to_string(), num(1));
    let mut right = Substitution::new();
    right.extend("X".to_string(), num(2));
    assert!(left.merge(&right).is_none());

    let mut other = Substitution::new();
    other.extend("Y".to_string(), num(2));
    let merged = left.merge(&other).unwrap();
    assert_eq!(merged.len(), 2);
    assert_eq!(merged.get("X"), Some(&num(1)));
    assert_eq!(merged.get("Y"), Some(&num(2)));

    let mut same = Substitution::new();
    same.extend("X".to_string(), num(1));
    same.extend("Z".to_string(), atom("z"));
    let joined = left.merge(&same).unwrap();
    assert_eq!(joined.len(), 2);
    assert_eq!(joined.get("Z"), Some(&atom("z")));

    let empty = Substitution::new();
    assert_eq!(empty.merge(&left).unwrap().get("X"), Some(&num(1)));
    assert_eq!(left.merge(&empty).unwrap().len(), 1);
}

#[test]
fn apply_is_idempotent() {
    let mut subs = Substitution::new();
    subs.extend("X".to_string(), compound("f", vec![var("Y")]));
    subs.extend("Y".to_string(), list(vec![var("Z"), var("W")]));
    subs.extend("Z".to_string(), num(3));
    let term = compound("g", vec![var("X"), var("W"), atom("c")]);
    let once = subs.apply(&term);
    let twice = subs.apply(&once);
    assert_eq!(once, twice);
    assert_eq!(
        once,
        compound("g", vec![compound("f", vec![list(vec![num(3), var("W")])]), var("W"), atom("c")])
    );
    assert_eq!(subs.resolve(&term), once);
}

#[test]
fn try_apply_stops_on_a_cycle() {
    let mut subs = Substitution::new();
    subs.extend("X".to_string(), var("Y"));
    subs.extend("Y".to_string(), var("X"));
    assert_eq!(subs.try_apply(&var("X")), None);
    assert_eq!(subs.try_apply(&atom("a")), Some(atom("a")));
    assert_eq!(subs.apply_bounded(&var("X"), 5), None);

    let mut chain = Substitution::new();
    chain.extend("A".to_string(), var("B"));
    chain.extend("B".to_string(), var("C"));
    chain.extend("C".to_string(), num(1));
    assert_eq!(chain.try_apply(&var("A")), Some(num(1)));
    assert_eq!(chain.apply_bounded(&var("A"), 2), None);
    assert_eq!(chain.apply_bounded(&var("A"), 3), Some(num(1)));
    let body = Expression::Conjunct(Box::new(goal(var("A"))), Box::new(goal(var("Q"))));
    assert_eq!(
        body.try_apply(&chain),
        Some(Expression::Conjunct(Box::new(goal(num(1))), Box::new(goal(var("Q")))))
    );
    assert_eq!(body.apply_bounded(&chain, 1), None);
    assert_eq!(goal(var("X")).try_apply(&subs), None);
}

#[test]
fn extend_replaces_an_earlier_binding() {
    let mut subs = Substitution::new();
    subs.extend("X".to_string(), num(1));
    subs.extend("X".to_string(), num(2));
    assert_eq!(subs.len(), 1);
    assert_eq!(subs.get("X"), Some(&num(2)));
    let copy = subs.clone();
    assert_eq!(copy.get("X"), Some(&num(2)));
}

#[test]
fn list_conversions() {
    assert_eq!(Term::from_vec(&[]), Term::EmptyList);
    assert_eq!(
        Term::from_vec(&[num(1), num(2)]),
        Term::List(Box::new(num(1)), Box::new(Term::List(Box::new(num(2)), Box::new(Term::EmptyList))))
    );
    assert_eq!(Term::list_from_vec(vec![]), Term::EmptyList);
    assert_eq!(Term::EmptyList.to_vec(), Some(vec![]));
    assert_eq!(atom("a").to_vec(), None);
    let improper = Term::List(Box::new(num(1)), Box::new(var("T")));
    assert_eq!(improper.to_vec(), None);
}

#[test]
fn display_text_of_terms() {
    assert_eq!(var("X").to_string(), "X");
    assert_eq!(num(-42).to_string(), "-42");
    assert_eq!(num(0).to_string(), "0");
    assert_eq!(num(i64::MIN).to_string(), "-9223372036854775808");
    assert_eq!(num(i64::MAX).to_string(), "9223372036854775807");
    assert_eq!(Term::EmptyList.to_string(), "[]");
    assert_eq!(compound("f", vec![]).to_string(), "f()");
    assert_eq!(list(vec![num(1), num(2)]).to_string(), "[1 | [2 | []]]");
    assert_eq!(compound("p", vec![var("X"), list(vec![atom("a")])]).to_string(), "p(X, [a | []])");
}

#[test]
fn renaming_adds_the_suffix_to_variables_only() {
    let term = compound("p", vec![var("X"), atom("X"), list(vec![var("Y"), num(1)])]);
    assert_eq!(
        rename_vars(&term, 7),
        compound("p", vec![var("X_7"), atom("X"), list(vec![var("Y_7"), num(1)])])
    );
    assert_eq!(rename_vars(&var("A"), 0), var("A_0"));
    assert_eq!(rename_vars(&var("A"), 1234567890), var("A_1234567890"));
    let body = Expression::Conjunct(Box::new(goal(var("X"))), Box::new(goal(compound("q", vec![var("Z")]))));
    assert_eq!(
        rename_expr(&body, 12),
        Expression::Conjunct(Box::new(goal(var("X_12"))), Box::new(goal(compound("q", vec![var("Z_12")]))))
    );
    assert_eq!(
        rename_clause_variables(&Clause::Rule(var("H"), body.clone()), 3),
        Clause::Rule(var("H_3"), rename_expr(&body, 3))
    );
    assert_eq!(rename_clause_variables(&Clause::Fact(var("H")), 3), Clause::Fact(var("H_3")));
}

#[test]
fn arithmetic_values() {
    let plus = compound("+", vec![num(2), num(3)]);
    assert_eq!(evaluate_arithmetic(&plus), Some(5));
    assert_eq!(evaluate_arithmetic(&compound("-", vec![num(2), num(3)])), Some(-1));
    assert_eq!(evaluate_arithmetic(&compound("*", vec![num(4), plus.clone()])), Some(20));
    assert_eq!(evaluate_arithmetic(&compound("/", vec![num(7), num(2)])), Some(3));
    assert_eq!(evaluate_arithmetic(&compound("/", vec![num(-7), num(2)])), Some(-3));
    assert_eq!(evaluate_arithmetic(&compound("/", vec![num(7), num(-2)])), Some(-3));
    assert_eq!(evaluate_arithmetic(&compound("/", vec![num(-7), num(-2)])), Some(3));
    assert_eq!(evaluate_arithmetic(&compound("/", vec![num(1), num(0)])), None);
    assert_eq!(evaluate_arithmetic(&compound("+", vec![num(i64::MAX), num(1)])), None);
    assert_eq!(evaluate_arithmetic(&compound("-", vec![num(i64::MIN), num(1)])), None);
    assert_eq!(evaluate_arithmetic(&compound("*", vec![num(i64::MAX), num(2)])), None);
    assert_eq!(evaluate_arithmetic(&compound("/", vec![num(i64::MIN), num(-1)])), None);
    assert_eq!(evaluate_arithmetic(&compound("mod", vec![num(7), num(2)])), None);
    assert_eq!(evaluate_arithmetic(&compound("+", vec![num(1)])), None);
    assert_eq!(evaluate_arithmetic(&compound("+", vec![var("X"), num(1)])), None);
    assert_eq!(evaluate_arithmetic(&atom("a")), None);
    assert_eq!(combine("+", 1, 2), Some(3));
    assert_eq!(combine("?", 1, 2), None);
}

#[test]
fn relations_compare_values() {
    assert_eq!(evaluate_relation("<", &num(1), &num(2)), Some(true));
    assert_eq!(evaluate_relation(">", &num(1), &num(2)), Some(false));
    assert_eq!(evaluate_relation("=<", &num(2), &num(2)), Some(true));
    assert_eq!(evaluate_relation(">=", &num(1), &num(2)), Some(false));
    assert_eq!(evaluate_relation("=", &compound("+", vec![num(1), num(1)]), &num(2)), Some(true));
    assert_eq!(evaluate_relation("\\=", &num(1), &num(2)), Some(true));
    assert_eq!(evaluate_relation("<", &var("X"), &num(2)), None);
    assert_eq!(evaluate_relation("<>", &num(1), &num(2)), None);
    assert!(is_relational_operator("=<"));
    assert!(!is_relational_operator("is"));
}

#[test]
fn is_binds_or_checks() {
    let sum = compound("+", vec![num(2), num(3)]);
    let bound = builtin_is(&[var("X"), sum.clone()]).unwrap();
    assert_eq!(bound.get("X"), Some(&num(5)));
    assert_eq!(bound.len(), 1);
    let checked = builtin_is(&[num(5), sum.clone()]).unwrap();
    assert_eq!(checked.len(), 0);
    assert!(builtin_is(&[num(6), sum.clone()]).is_none());
    assert!(builtin_is(&[atom("a"), sum]).is_none());
    assert!(builtin_is(&[var("X"), compound("/", vec![num(1), num(0)])]).is_none());
    assert!(builtin_is(&[var("X")]).is_none());
    assert!(builtin_is(&[var("X"), num(1), num(2)]).is_none());
}

#[test]
fn arithmetic_queries() {
    let db = Database::new(vec![]);
    let sum = compound("+", vec![num(2), num(3)]);
    let answer = run(&db, &goal(compound("is", vec![var("X"), sum.clone()]))).unwrap();
    assert_eq!(answer.get("X"), Some(&num(5)));
    let answer = run(&db, &goal(compound("is", vec![num(5), sum]))).unwrap();
    assert_eq!(answer.len(), 0);
    assert!(run(&db, &goal(compound("is", vec![var("X"), compound("/", vec![num(1), num(0)])]))).is_none());
    assert!(run(&db, &goal(compound("<", vec![num(1), num(2)]))).is_some());
    assert!(run(&db, &goal(compound("<", vec![num(2), num(1)]))).is_none());
    assert!(run(&db, &goal(compound("=", vec![var("X"), num(1)]))).is_none());
}

#[test]
fn append_in_its_three_modes() {
    let answer = builtin_append(&[list(vec![num(1), num(2)]), list(vec![num(3)]), var("X")]).unwrap();
    assert_eq!(answer.get("X"), Some(&list(vec![num(1), num(2), num(3)])));
    let answer = builtin_append(&[list(vec![num(1), num(2)]), var("X"), list(vec![num(1), num(2), num(3)])]).unwrap();
    assert_eq!(answer.get("X"), Some(&list(vec![num(3)])));
    let answer = builtin_append(&[var("X"), list(vec![num(3)]), list(vec![num(1), num(2), num(3)])]).unwrap();
    assert_eq!(answer.get("X"), Some(&list(vec![num(1), num(2)])));
    assert!(builtin_append(&[list(vec![num(9)]), var("X"), list(vec![num(1), num(2)])]).is_none());
    assert!(builtin_append(&[var("X"), list(vec![num(9)]), list(vec![num(1), num(2)])]).is_none());
    assert!(builtin_append(&[var("X"), var("Y"), list(vec![num(1)])]).is_none());
    assert!(builtin_append(&[list(vec![num(1)]), list(vec![num(2)]), list(vec![num(1), num(3)])]).is_none());
    assert!(builtin_append(&[list(vec![]), list(vec![])]).is_none());
    let answer = builtin_append(&[list(vec![]), list(vec![]), var("X")]).unwrap();
    assert_eq!(answer.get("X"), Some(&Term::EmptyList));
    let db = Database::new(vec![]);
    let through = run(&db, &goal(compound("append", vec![list(vec![num(1)]), list(vec![num(2)]), var("R")]))).unwrap();
    assert_eq!(through.get("R"), Some(&list(vec![num(1), num(2)])));
}

#[test]
fn member_takes_the_first_match() {
    let items = list(vec![compound("p", vec![num(1)]), compound("p", vec![num(2)])]);
    let answer = builtin_member(&[compound("p", vec![var("X")]), items]).unwrap();
    assert_eq!(answer.get("X"), Some(&num(1)));
    assert!(builtin_member(&[num(1), Term::EmptyList]).is_none());
    assert!(builtin_member(&[num(1), atom("a")]).is_none());
    assert!(builtin_member(&[num(1)]).is_none());
    let improper = Term::List(Box::new(num(1)), Box::new(var("T")));
    assert!(builtin_member(&[num(2), improper]).is_none());
}

#[test]
fn between_lists_the_range() {
    let answer = builtin_between(&[num(-1), num(1), var("X")]).unwrap();
    assert_eq!(answer.get("X"), Some(&atom("-1; 0; 1")));
    let answer = builtin_between(&[num(4), num(4), var("X")]).unwrap();
    assert_eq!(answer.get("X"), Some(&atom("4")));
    let top = builtin_between(&[num(i64::MAX - 1), num(i64::MAX), var("X")]).unwrap();
    assert_eq!(top.get("X"), Some(&atom("9223372036854775806; 9223372036854775807")));
    assert!(builtin_between(&[num(2), num(1), var("X")]).is_none());
    assert!(builtin_between(&[num(1), num(2), num(1)]).is_none());
    assert!(builtin_between(&[atom("a"), num(2), var("X")]).is_none());
    assert!(builtin_between(&[num(1), var("Y"), var("X")]).is_none());
    assert!(builtin_between(&[num(1), num(2)]).is_none());
}

#[test]
fn length_counts_or_checks() {
    assert_eq!(builtin_length(&[Term::EmptyList, var("N")]).unwrap().get("N"), Some(&num(0)));
    assert_eq!(builtin_length(&[list(vec![num(1), num(2)]), num(2)]).unwrap().len(), 0);
    assert!(builtin_length(&[list(vec![num(1), num(2)]), num(3)]).is_none());
    assert!(builtin_length(&[list(vec![num(1)]), atom("a")]).is_none());
    assert!(builtin_length(&[atom("a"), var("N")]).is_none());
    assert!(builtin_length(&[Term::List(Box::new(num(1)), Box::new(var("T"))), var("N")]).is_none());
    assert!(builtin_length(&[Term::EmptyList]).is_none());
}

#[test]
fn reverse_turns_the_chain_around() {
    assert_eq!(builtin_reverse(&[Term::EmptyList, var("X")]).unwrap().get("X"), Some(&Term::EmptyList));
    let answer = builtin_reverse(&[list(vec![num(1), num(2), num(3)]), var("X")]).unwrap();
    assert_eq!(answer.get("X"), Some(&list(vec![num(3), num(2), num(1)])));
    let improper = Term::List(Box::new(num(1)), Box::new(Term::List(Box::new(num(2)), Box::new(var("T")))));
    assert_eq!(builtin_reverse(&[improper, var("X")]).unwrap().get("X"), Some(&list(vec![num(2), num(1)])));
    assert!(builtin_reverse(&[atom("a"), var("X")]).is_none());
    assert!(builtin_reverse(&[list(vec![num(1)]), num(1)]).is_none());
    assert!(builtin_reverse(&[list(vec![num(1)])]).is_none());
}

#[test]
fn max_min_and_succ() {
    assert_eq!(builtin_max(&[num(5), num(3), var("M")]).unwrap().get("M"), Some(&num(5)));
    assert_eq!(builtin_max(&[num(-5), num(-5), var("M")]).unwrap().get("M"), Some(&num(-5)));
    assert_eq!(builtin_min(&[num(5), num(3), var("M")]).unwrap().get("M"), Some(&num(3)));
    assert!(builtin_max(&[num(5), atom("a"), var("M")]).is_none());
    assert!(builtin_min(&[var("A"), num(3), var("M")]).is_none());
    assert!(builtin_min(&[num(1), num(3), num(1)]).is_none());
    assert!(builtin_max(&[num(1), num(3)]).is_none());
    assert_eq!(builtin_succ(&[num(-1), var("X")]).unwrap().get("X"), Some(&num(0)));
    assert!(builtin_succ(&[num(i64::MAX), var("X")]).is_none());
    assert!(builtin_succ(&[var("N"), var("X")]).is_none());
    assert!(builtin_succ(&[num(1), num(2)]).is_none());
    assert!(builtin_succ(&[num(1)]).is_none());
}

#[test]
fn sort_orders_integers_and_keeps_duplicates() {
    let answer = builtin_sort(&[list(vec![num(3), num(-1), num(3), num(0)]), var("S")]).unwrap();
    assert_eq!(answer.get("S"), Some(&list(vec![num(-1), num(0), num(3), num(3)])));
    assert_eq!(builtin_sort(&[Term::EmptyList, var("S")]).unwrap().get("S"), Some(&Term::EmptyList));
    assert!(builtin_sort(&[list(vec![num(3), atom("a")]), var("S")]).is_none());
    assert!(builtin_sort(&[list(vec![num(3)]), num(3)]).is_none());
    assert!(builtin_sort(&[atom("a"), var("S")]).is_none());
    assert!(builtin_sort(&[list(vec![num(3)])]).is_none());
}

#[test]
fn builtins_are_selected_by_name_and_arity() {
    assert!(solve_builtin("parent", &[num(1), num(2)]).is_none());
    assert!(solve_builtin("is", &[num(1)]).is_none());
    assert!(solve_builtin("append", &[num(1), num(2)]).is_none());
    let answer = solve_builtin("succ", &[num(1), var("X")]).unwrap().unwrap();
    assert_eq!(answer.get("X"), Some(&num(2)));
    assert!(solve_builtin(">=", &[num(1), num(2)]).unwrap().is_none());
    assert!(solve_builtin(">=", &[num(2), num(2)]).unwrap().is_some());
    assert!(solve_builtin("min", &[num(2), num(1), var("X")]).unwrap().is_some());
    assert!(solve_builtin("max", &[num(2), num(1), var("X")]).unwrap().is_some());
    assert!(solve_builtin("reverse", &[Term::EmptyList, var("X")]).unwrap().is_some());
    assert!(solve_builtin("length", &[Term::EmptyList, var("X")]).unwrap().is_some());
    assert!(solve_builtin("sort", &[Term::EmptyList, var("X")]).unwrap().is_some());
    assert!(solve_builtin("member", &[num(1), list(vec![num(1)])]).unwrap().is_some());
    assert!(solve_builtin("between", &[num(1), num(2), var("X")]).unwrap().is_some());
}

#[test]
fn builtins_come_before_the_database() {
    let db = Database::new(vec![Clause::Fact(compound("succ", vec![num(1), num(5)]))]);
    assert!(run(&db, &goal(compound("succ", vec![num(1), num(5)]))).is_none());
    let answer = run(&db, &goal(compound("succ", vec![num(1), var("X")]))).unwrap();
    assert_eq!(answer.get("X"), Some(&num(2)));
}

#[test]
fn first_matching_fact_answers() {
    let db = Database::new(vec![
        Clause::Fact(compound("colour", vec![atom("red")])),
        Clause::Fact(compound("colour", vec![atom("green")])),
    ]);
    let mut stack = BacktrackingStack::new();
    let mut counter = 0;
    let answer = solve(&goal(compound("colour", vec![var("C")])), &db, &mut stack, &mut counter).unwrap();
    assert_eq!(answer.get("C"), Some(&atom("red")));
    assert_eq!(counter, 0);
    assert_eq!(stack.len(), 0);
    let answer = solve(&goal(compound("colour", vec![atom("green")])), &db, &mut stack, &mut counter).unwrap();
    assert_eq!(answer.len(), 0);
    assert_eq!(counter, 1);
}

#[test]
fn a_failed_attempt_binds_nothing_for_the_next_clause() {
    let db = Database::new(vec![
        Clause::Fact(compound("p", vec![atom("a"), atom("b")])),
        Clause::Fact(compound("p", vec![var("X"), atom("c")])),
    ]);
    let answer = run(&db, &goal(compound("p", vec![var("Y"), atom("c")]))).unwrap();
    assert_eq!(answer.get("Y"), None);
    assert_eq!(answer.get("X_1"), Some(&var("Y")));
    assert_eq!(answer.len(), 1);
}

#[test]
fn goals_that_cannot_be_solved_fail() {
    let db = Database::new(vec![Clause::Fact(compound("p", vec![atom("a")]))]);
    let mut stack = BacktrackingStack::new();
    let mut counter = 0;
    assert!(solve(&goal(compound("q", vec![atom("a")])), &db, &mut stack, &mut counter).is_none());
    assert_eq!(counter, 1);
    assert!(solve(&goal(atom("p")), &db, &mut stack, &mut counter).is_none());
    assert!(solve(&goal(var("P")), &db, &mut stack, &mut counter).is_none());
    assert_eq!(counter, 1);
    let rule_db = Database::new(vec![Clause::Rule(compound("r", vec![var("X")]), goal(compound("missing", vec![var("X")])))]);
    assert!(run(&rule_db, &goal(compound("r", vec![num(1)]))).is_none());
}

#[test]
fn suffixes_run_out_at_the_greatest_counter() {
    let db = Database::new(vec![Clause::Fact(compound("p", vec![atom("a")]))]);
    let mut stack = BacktrackingStack::new();
    let mut counter = usize::MAX;
    assert!(solve(&goal(compound("q", vec![atom("a")])), &db, &mut stack, &mut counter).is_none());
    assert_eq!(counter, usize::MAX);
    assert!(solve(&goal(compound("p", vec![atom("a")])), &db, &mut stack, &mut counter).is_some());
}

#[test]
fn each_invocation_of_a_recursive_rule_has_its_own_variables() {
    let db = Database::new(vec![
        Clause::Fact(compound("nat", vec![atom("z")])),
        Clause::Rule(
            compound("nat", vec![compound("s", vec![var("X")])]),
            goal(compound("nat", vec![var("X")])),
        ),
    ]);
    let two = compound("s", vec![compound("s", vec![atom("z")])]);
    let mut stack = BacktrackingStack::new();
    let mut counter = 0;
    let answer = solve(&goal(compound("nat", vec![two])), &db, &mut stack, &mut counter).unwrap();
    assert_eq!(answer.get("X_1"), Some(&compound("s", vec![atom("z")])));
    assert_eq!(answer.get("X_4"), Some(&atom("z")));
    assert_eq!(answer.get("X"), None);
    assert_eq!(answer.len(), 2);
    assert_eq!(counter, 6);
    assert!(run(&db, &goal(compound("nat", vec![compound("s", vec![atom("y")])]))).is_none());
}

#[test]
fn sibling_rules_are_renamed_apart_and_deferred() {
    let db = Database::new(vec![
        Clause::Rule(compound("p", vec![var("X")]), goal(compound("is", vec![var("X"), num(1)]))),
        Clause::Rule(compound("p", vec![var("X")]), goal(compound("is", vec![var("X"), num(2)]))),
        Clause::Rule(compound("p", vec![var("X")]), goal(compound("is", vec![var("X"), num(3)]))),
    ]);
    let mut stack = BacktrackingStack::new();
    let mut counter = 0;
    let query = compound("p", vec![var("Q")]);
    let answer = solve(&goal(query.clone()), &db, &mut stack, &mut counter).unwrap();
    assert_eq!(answer.get("Q"), Some(&num(1)));
    assert_eq!(answer.get("X_0"), Some(&var("Q")));
    assert_eq!(answer.get("X_1"), None);
    assert_eq!(answer.get("X_2"), None);
    assert_eq!(counter, 4);
    assert_eq!(stack.len(), 2);
    let top = stack.pop().unwrap();
    assert_eq!(top.alternatives, vec![query]);
    assert_eq!(top.env.bindings.len(), 0);
}

#[test]
fn conjunction_threads_and_merges_bindings() {
    let db = Database::new(vec![
        Clause::Fact(compound("parent", vec![atom("john"), atom("mary")])),
        Clause::Fact(compound("parent", vec![atom("mary"), atom("alice")])),
    ]);
    let query = Expression::Conjunct(
        Box::new(goal(compound("parent", vec![atom("john"), var("Z")]))),
        Box::new(goal(compound("parent", vec![var("Z"), var("Y")]))),
    );
    let answer = run(&db, &query).unwrap();
    assert_eq!(answer.get("Z"), Some(&atom("mary")));
    assert_eq!(answer.get("Y"), Some(&atom("alice")));
    assert_eq!(answer.len(), 2);
}

#[test]
fn conjunction_whose_sides_disagree_fails_without_backtracking() {
    let db = Database::new(vec![Clause::Fact(compound("q", vec![num(7), var("B")]))]);
    let both = Expression::Conjunct(
        Box::new(goal(compound("is", vec![var("X"), num(1)]))),
        Box::new(goal(compound("q", vec![var("A"), num(2)]))),
    );
    let answer = run(&db, &both).unwrap();
    assert_eq!(answer.get("X"), Some(&num(1)));
    assert_eq!(answer.get("A"), Some(&num(7)));
    assert_eq!(answer.get("B_0"), Some(&num(2)));
    assert_eq!(answer.len(), 3);

    let mut stack = BacktrackingStack::new();
    stack.push(ChoicePoint { env: Environment::new(), alternatives: vec![compound("succ", vec![num(7), var("W")])] });
    let mut counter = 0;
    let clash = Expression::Conjunct(
        Box::new(goal(compound("is", vec![var("B_0"), num(1)]))),
        Box::new(goal(compound("q", vec![var("A"), num(2)]))),
    );
    assert!(solve(&clash, &db, &mut stack, &mut counter).is_none());
    assert_eq!(stack.len(), 1);
}

#[test]
fn right_side_sees_the_bindings_of_the_left_side() {
    let db = Database::new(vec![]);
    let query = Expression::Conjunct(
        Box::new(goal(compound("is", vec![var("X"), compound("+", vec![num(1), num(2)])]))),
        Box::new(goal(compound("is", vec![var("Y"), compound("*", vec![var("X"), num(2)])]))),
    );
    let answer = run(&db, &query).unwrap();
    assert_eq!(answer.get("X"), Some(&num(3)));
    assert_eq!(answer.get("Y"), Some(&num(6)));
}

#[test]
fn failure_in_a_conjunction_retries_the_most_recent_alternative() {
    let db = Database::new(vec![]);
    let mut stack = BacktrackingStack::new();
    stack.push(ChoicePoint { env: Environment::new(), alternatives: vec![compound("succ", vec![num(1), var("A")])] });
    stack.push(ChoicePoint { env: Environment::new(), alternatives: vec![] });
    stack.push(ChoicePoint {
        env: Environment::new(),
        alternatives: vec![compound("succ", vec![num(7), var("B")]), compound("succ", vec![num(8), var("C")])],
    });
    stack.push(ChoicePoint { env: Environment::new(), alternatives: vec![] });
    let mut counter = 0;
    let failing = Expression::Conjunct(
        Box::new(goal(compound("<", vec![num(2), num(1)]))),
        Box::new(goal(compound("<", vec![num(1), num(2)]))),
    );
    let answer = solve(&failing, &db, &mut stack, &mut counter).unwrap();
    assert_eq!(answer.get("B"), Some(&num(8)));
    assert_eq!(answer.len(), 1);
    assert_eq!(stack.len(), 2);

    let second_fails = Expression::Conjunct(
        Box::new(goal(compound("<", vec![num(1), num(2)]))),
        Box::new(goal(compound("<", vec![num(2), num(1)]))),
    );
    let answer = solve(&second_fails, &db, &mut stack, &mut counter).unwrap();
    assert_eq!(answer.get("A"), Some(&num(2)));
    assert_eq!(stack.len(), 0);
    assert!(solve(&second_fails, &db, &mut stack, &mut counter).is_none());
    assert_eq!(counter, 0);
}

#[test]
fn a_rule_whose_bindings_disagree_with_its_body_answers_with_none() {
    let db = Database::new(vec![
        Clause::Rule(
            compound("p", vec![compound("g", vec![var("A")])]),
            goal(compound("q", vec![var("A"), num(1)])),
        ),
        Clause::Fact(compound("q", vec![num(7), var("B")])),
    ]);
    let agreeing = run(&db, &goal(compound("p", vec![var("V")]))).unwrap();
    assert_eq!(agreeing.get("V"), Some(&compound("g", vec![var("A_0")])));
    assert_eq!(agreeing.get("A_0"), Some(&num(7)));
    assert_eq!(agreeing.get("B_4"), Some(&num(1)));
    assert_eq!(agreeing.len(), 3);
    let clashing = run(&db, &goal(compound("p", vec![var("B_4")]))).unwrap();
    assert_eq!(clashing.len(), 0);
}

#[test]
fn candidates_are_the_clauses_of_matching_shape() {
    let db = Database::new(vec![
        Clause::Fact(compound("p", vec![atom("a")])),
        Clause::Fact(compound("q", vec![atom("a")])),
        Clause::Rule(compound("p", vec![var("X")]), goal(compound("q", vec![var("X")]))),
        Clause::Fact(compound("p", vec![atom("a"), atom("b")])),
        Clause::Fact(var("Anything")),
        Clause::Fact(atom("p")),
    ]);
    let found = db.find_candidates(&compound("p", vec![var("Y")]));
    assert_eq!(
        found,
        vec![
            Clause::Fact(compound("p", vec![atom("a")])),
            Clause::Rule(compound("p", vec![var("X")]), goal(compound("q", vec![var("X")]))),
            Clause::Fact(var("Anything")),
            Clause::Fact(atom("p")),
        ]
    );
    assert_eq!(db.find_candidates(&var("G")).len(), 6);
    assert_eq!(db.find_candidates(&compound("r", vec![])).len(), 2);
    assert_eq!(Database::new(vec![]).find_candidates(&atom("p")).len(), 0);
}

#[test]
fn substitutions_are_equal_when_they_bind_the_same() {
    let mut left = Substitution::new();
    left.extend("X".to_string(), num(1));
    left.extend("Y".to_string(), atom("y"));
    let mut right = Substitution::new();
    right.extend("Y".to_string(), atom("y"));
    right.extend("X".to_string(), num(1));
    assert!(left == right);
    right.extend("X".to_string(), num(2));
    assert!(left != right);
    right.extend("X".to_string(), num(1));
    right.extend("Z".to_string(), num(3));
    assert!(left != right);
    assert!(right != left);
    assert!(Substitution::new() == Substitution::new());
    assert!(left.clone() == left);
}

#[test]
fn queries_are_answered_from_scratch() {
    let db = Database::new(vec![
        Clause::Fact(compound("parent", vec![atom("john"), atom("mary")])),
        Clause::Fact(compound("parent", vec![atom("mary"), atom("alice")])),
        Clause::Rule(
            compound("grandparent", vec![var("X"), var("Y")]),
            Expression::Conjunct(
                Box::new(goal(compound("parent", vec![var("X"), var("Z")]))),
                Box::new(goal(compound("parent", vec![var("Z"), var("Y")]))),
            ),
        ),
    ]);
    let answer = solve_query(&goal(compound("grandparent", vec![var("X"), atom("alice")])), &db).unwrap();
    assert_eq!(answer.get("X"), Some(&atom("john")));
    let answer = solve_query(&goal(compound("parent", vec![atom("john"), var("X")])), &db).unwrap();
    assert_eq!(answer.get("X"), Some(&atom("mary")));
    assert!(solve_query(&goal(compound("parent", vec![atom("alice"), var("X")])), &db).is_none());
    assert!(solve_query(&goal(compound("grandparent", vec![atom("mary"), var("X")])), &db).is_none());
    assert!(solve_query(&goal(atom("parent")), &db).is_none());
}
