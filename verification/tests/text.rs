use prolog_interpreter::expr_parser::{parse_expression_with_precedence, preprocess_expression};
use prolog_interpreter::result::{
    can_format, extract_query_vars, format_result, format_term, get_result, try_format_result,
    try_get_result,
};
use prolog_interpreter::term_map::TermMap;
use prolog_interpreter::terms::Term;
use prolog_interpreter::text::{characters, join, push_decimal, push_digits, same_text, text_of};
use prolog_interpreter::unification::Substitution;
use std::time::Duration;

fn atom(name: &str) -> Term {
    Term::Constant(name.to_string())
}

fn var(name: &str) -> Term {
    Term::Variable(name.to_string())
}

fn num(n: i64) -> Term {
    Term::Integer(n)
}

fn compound(name: &str, args: Vec<Term>) -> Term {
    Term::Compound(name.to_string(), args)
}

#[test]
fn decimal_text_of_integers() {
    let mut out = String::from("n=");
    push_decimal(&mut out, -305);
    assert_eq!(out, "n=-305");
    let mut out = String::new();
    push_decimal(&mut out, 0);
    push_decimal(&mut out, 7);
    push_decimal(&mut out, i64::MIN);
    assert_eq!(out, "07-9223372036854775808");
    let mut out = String::new();
    push_digits(&mut out, u128::MAX);
    assert_eq!(out, "340282366920938463463374607431768211455");
    let mut out = String::new();
    push_digits(&mut out, 1000);
    assert_eq!(out, "1000");
}

#[test]
fn joining_and_slicing_text() {
    assert_eq!(join(&vec![], ", "), "");
    assert_eq!(join(&vec!["a".to_string()], ", "), "a");
    assert_eq!(join(&vec!["a".to_string(), "".to_string(), "c".to_string()], "; "), "a; ; c");
    assert!(same_text("abc", "abc"));
    assert!(!same_text("abc", "abd"));
    assert!(!same_text("abc", "ab"));
    let chars = characters("héllo");
    assert_eq!(chars, vec!['h', 'é', 'l', 'l', 'o']);
    assert_eq!(text_of(&chars, 1, 4), "éll");
    assert_eq!(text_of(&chars, 2, 2), "");
    assert_eq!(characters(""), Vec::<char>::new());
}

#[test]
fn term_map_binds_and_replaces() {
    let mut map = TermMap::new();
    assert_eq!(map.len(), 0);
    assert_eq!(map.get("X"), None);
    assert_eq!(map.insert("X".to_string(), num(1)), None);
    assert_eq!(map.insert("Y".to_string(), num(2)), None);
    assert_eq!(map.insert("X".to_string(), num(3)), Some(num(1)));
    assert_eq!(map.len(), 2);
    assert_eq!(map.get("X"), Some(&num(3)));
    assert_eq!(map.get("Y"), Some(&num(2)));
    assert_eq!(map.get(""), None);
    let copy = map.clone();
    assert_eq!(copy.len(), 2);
    assert_eq!(copy.get("X"), Some(&num(3)));
    let mut other = TermMap::new();
    other.insert("Z".to_string(), num(9));
    other.insert("Y".to_string(), num(2));
    let merged = map.merge(&other).unwrap();
    assert_eq!(merged.len(), 3);
    assert_eq!(merged.get("Z"), Some(&num(9)));
    other.insert("X".to_string(), num(4));
    assert!(map.merge(&other).is_none());
}

#[test]
fn query_variables_are_found_in_order() {
    assert_eq!(extract_query_vars("?- parent(X, Y_1), foo(_G, x, X)."), vec!["X", "Y_1", "_G", "X"]);
    assert_eq!(extract_query_vars("?- foo(bar, aX, 9Z)."), Vec::<String>::new());
    assert_eq!(extract_query_vars(""), Vec::<String>::new());
}

#[test]
fn bound_variables_are_shown_through_their_bindings() {
    let mut subs = Substitution::new();
    subs.extend("X".to_string(), var("Y"));
    subs.extend("Y".to_string(), compound("f", vec![var("Z"), num(-2), atom("a")]));
    subs.extend("L".to_string(), Term::List(Box::new(num(1)), Box::new(Term::List(Box::new(var("Z")), Box::new(var("T"))))));
    subs.extend("T".to_string(), Term::list_from_vec(vec![num(3)]));
    assert_eq!(format_term(&var("X"), &subs), "f(Z, -2, a)");
    assert_eq!(format_term(&var("L"), &subs), "[1, Z | [3]]");
    assert_eq!(format_term(&Term::EmptyList, &subs), "[]");
    assert_eq!(format_term(&Term::list_from_vec(vec![atom("a")]), &subs), "[a]");
    assert_eq!(format_term(&compound("g", vec![]), &subs), "g()");
    assert_eq!(format_term(&var("Unbound"), &subs), "Unbound");
}

#[test]
fn result_lists_each_bound_query_variable() {
    let mut subs = Substitution::new();
    subs.extend("X".to_string(), num(1));
    subs.extend("Z".to_string(), atom("hidden"));
    let line = get_result("?- p(X, Y, X).", Some(subs), Duration::from_millis(10));
    assert_eq!(line, "?- p(X, Y, X). => X = 1, X = 1");
    let mut subs = Substitution::new();
    subs.extend("X".to_string(), num(1));
    let line = get_result("?- p(X).", Some(subs), Duration::from_millis(11));
    assert_eq!(line, "?- p(X). => X = 1      |   Solve time: 11ms");
    let mut subs = Substitution::new();
    subs.extend("X".to_string(), num(1));
    let line = get_result("?- p(y).", Some(subs), Duration::from_millis(5000));
    assert_eq!(line, "?- p(y). => true");
    assert_eq!(get_result("?- p(X).", None, Duration::from_millis(5000)), "?- p(X). => false");
}

#[test]
fn result_from_given_names() {
    let mut subs = Substitution::new();
    subs.extend("A".to_string(), atom("a"));
    subs.extend("B".to_string(), atom("b"));
    let names = vec!["B".to_string(), "C".to_string(), "A".to_string()];
    assert_eq!(format_result("q", &names, &Some(subs), 0), "q => B = b, A = a");
    assert_eq!(format_result("q", &names, &None, 99), "q => false");
    assert_eq!(format_result("q", &vec![], &Some(Substitution::new()), 99), "q => true");
    let mut subs = Substitution::new();
    subs.extend("A".to_string(), atom("a"));
    assert_eq!(
        format_result("q", &names, &Some(subs), u128::MAX),
        "q => A = a      |   Solve time: 340282366920938463463374607431768211455ms"
    );
}

#[test]
fn flat_expressions_fold_by_precedence() {
    let flat = vec![num(1), atom("+"), num(2), atom("*"), num(3)];
    assert_eq!(
        parse_expression_with_precedence(&flat),
        Some(compound("+", vec![num(1), compound("*", vec![num(2), num(3)])]))
    );
    let flat = vec![num(1), atom("*"), num(2), atom("+"), num(3)];
    assert_eq!(
        parse_expression_with_precedence(&flat),
        Some(compound("*", vec![num(1), num(2)]))
    );
    let flat = vec![num(1), atom("-"), num(2), atom("-"), num(3)];
    assert_eq!(
        parse_expression_with_precedence(&flat),
        Some(compound("-", vec![num(1), num(2)]))
    );
    assert_eq!(parse_expression_with_precedence(&[]), None);
    assert_eq!(parse_expression_with_precedence(&[num(1), atom("+")]), None);
    assert_eq!(parse_expression_with_precedence(&[num(1)]), Some(num(1)));
    assert_eq!(parse_expression_with_precedence(&[num(1), num(2), num(3)]), Some(num(1)));
    assert_eq!(
        parse_expression_with_precedence(&[var("X"), atom("foo"), var("Y")]),
        Some(compound("foo", vec![var("X"), var("Y")]))
    );
}

#[test]
fn preprocessing_folds_the_arguments_of_a_compound() {
    let term = compound("expr", vec![num(1), atom("<"), num(2), atom("+"), num(3)]);
    assert_eq!(
        preprocess_expression(&term),
        Some(compound("<", vec![num(1), compound("+", vec![num(2), num(3)])]))
    );
    assert_eq!(preprocess_expression(&atom("a")), Some(atom("a")));
    assert_eq!(preprocess_expression(&compound("f", vec![])), None);
}

#[test]
fn bindings_that_never_end_cannot_be_reported() {
    let mut subs = Substitution::new();
    subs.extend("X".to_string(), compound("f", vec![var("Y")]));
    subs.extend("Y".to_string(), var("X"));
    subs.extend("Z".to_string(), num(1));
    assert!(!can_format(&var("X"), &subs));
    assert!(can_format(&var("Z"), &subs));
    assert!(can_format(&var("W"), &subs));
    let names = vec!["Z".to_string()];
    assert_eq!(try_format_result("q", &names, &Some(subs.clone()), 0), Some("q => Z = 1".to_string()));
    let names = vec!["Z".to_string(), "X".to_string()];
    assert_eq!(try_format_result("q", &names, &Some(subs.clone()), 0), None);
    assert_eq!(try_format_result("q", &names, &None, 0), Some("q => false".to_string()));
    assert_eq!(try_get_result("?- p(Z).", Some(subs.clone()), Duration::from_millis(1)), Some("?- p(Z). => Z = 1".to_string()));
    assert_eq!(try_get_result("?- p(Z, Y).", Some(subs), Duration::from_millis(1)), None);
    assert_eq!(try_get_result("?- p(Z, Y).", None, Duration::from_millis(1)), Some("?- p(Z, Y). => false".to_string()));
}
