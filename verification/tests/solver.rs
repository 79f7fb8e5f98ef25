use prolog_interpreter::backtracking::BacktrackingStack;
use prolog_interpreter::database::Database;
use prolog_interpreter::solver::solve;
use prolog_interpreter::terms::{Clause, Expression, Term};

#[test]
fn test_fact_matching() {
    let db = Database::new(vec![Clause::Fact(Term::Compound(
        "parent".into(),
        vec![Term::Constant("john".into()), Term::Constant("mary".into())],
    ))]);

    let query = Expression::Term(Term::Compound(
        "parent".into(),
        vec![Term::Constant("john".into()), Term::Variable("X".into())],
    ));

    let mut back_stack = BacktrackingStack::new();
    let mut counter = 0;
    let result = solve(&query, &db, &mut back_stack, &mut counter);

    assert!(result.is_some());
    let subs = result.unwrap();
    assert_eq!(subs.get("X"), Some(&Term::Constant("mary".into())));
}

#[test]
fn test_grandparent_rule() {
    let db = Database::new(vec![
        Clause::Fact(Term::Compound(
            "parent".into(),
            vec![Term::Constant("john".into()), Term::Constant("mary".into())],
        )),
        Clause::Fact(Term::Compound(
            "parent".into(),
            vec![Term::Constant("mary".into()), Term::Constant("alice".into())],
        )),
        Clause::Rule(
            Term::Compound(
                "grandparent".into(),
                vec![Term::Variable("X".into()), Term::Variable("Y".into())],
            ),
            Expression::Conjunct(
                Box::new(Expression::Term(Term::Compound(
                    "parent".into(),
                    vec![Term::Variable("X".into()), Term::Variable("Z".into())],
                ))),
                Box::new(Expression::Term(Term::Compound(
                    "parent".into(),
                    vec![Term::Variable("Z".into()), Term::Variable("Y".into())],
                ))),
            ),
        ),
    ]);

    let query = Expression::Term(Term::Compound(
        "grandparent".into(),
        vec![Term::Variable("X".into()), Term::Constant("alice".into())],
    ));

    let mut back_stack = BacktrackingStack::new();
    let mut counter = 0;
    let result = solve(&query, &db, &mut back_stack, &mut counter);

    assert!(result.is_some());
    let subs = result.unwrap();
    assert_eq!(subs.get("X"), Some(&Term::Constant("john".into())));
}

#[test]
fn test_arithmetic_is_operator() {
    let db = Database::new(vec![Clause::Rule(
        Term::Compound("test".into(), vec![Term::Variable("X".into())]),
        Expression::Term(Term::Compound(
            "is".into(),
            vec![
                Term::Variable("X".into()),
                Term::Compound("+".into(), vec![Term::Integer(2), Term::Integer(3)]),
            ],
        )),
    )]);

    let query = Expression::Term(Term::Compound("test".into(), vec![Term::Variable("X".into())]));

    let mut back_stack = BacktrackingStack::new();
    let mut counter = 0;
    let result = solve(&query, &db, &mut back_stack, &mut counter);

    assert!(result.is_some());
    let subs = result.unwrap();
    assert_eq!(subs.get("X"), Some(&Term::Integer(5)));
}

#[test]
fn test_query_solving() {
    let db = Database::new(vec![Clause::Fact(Term::Compound("true_fact".to_string(), vec![]))]);

    let query = Expression::Term(Term::Compound("true_fact".to_string(), vec![]));
    let mut back_stack = BacktrackingStack::new();
    let mut counter = 0;
    assert!(solve(&query, &db, &mut back_stack, &mut counter).is_some());
}
