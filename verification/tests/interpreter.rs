use prolog_interpreter::backtracking::ChoicePoint;
use prolog_interpreter::bytecode::Bytecode;
use prolog_interpreter::interpreter::{Event, Interpreter};
use prolog_interpreter::parser::parser::parse;
use prolog_interpreter::terms::Term;

#[test]
fn test_interpreter_execution() {
    let mut interpreter = Interpreter::new();
    let program = vec![
        Bytecode::Allocate,
        Bytecode::Call("parent".into()),
        Bytecode::Deallocate,
        Bytecode::Proceed,
    ];
    interpreter.execute(program);
}

#[test]
fn test_prolog_program() {
    let ast = parse("parent(john, mary).");
    assert!(ast.is_ok());
    let mut interpreter = Interpreter::new();
    let events = interpreter.execute(vec![]);
    assert!(events.is_empty());
}

#[test]
fn execute_reports_each_instruction_in_order() {
    let mut interpreter = Interpreter::new();
    let events = interpreter.execute(vec![
        Bytecode::Allocate,
        Bytecode::Call("parent".into()),
        Bytecode::Unify(Term::Integer(7)),
        Bytecode::Backtrack,
        Bytecode::Deallocate,
        Bytecode::Proceed,
    ]);
    assert_eq!(events.len(), 6);
    assert!(matches!(events[0], Event::Allocating));
    assert!(matches!(&events[1], Event::Calling(name) if name == "parent"));
    assert!(matches!(&events[2], Event::Unifying(term) if *term == Term::Integer(7)));
    assert!(matches!(events[3], Event::Backtracking));
    assert!(matches!(events[4], Event::Deallocating));
    assert!(matches!(events[5], Event::Proceeding));
}

#[test]
fn machine_knows_no_alternatives() {
    let interpreter = Interpreter::new();
    assert!(interpreter.get_alternatives("parent").is_none());
}

#[test]
fn choice_point_keeps_its_alternatives() {
    let choice = ChoicePoint {
        env: prolog_interpreter::environment::Environment::new(),
        alternatives: vec![Term::Constant("a".into()), Term::Constant("b".into())],
    };
    assert_eq!(choice.alternatives.len(), 2);
    assert_eq!(choice.env.bindings.len(), 0);
}
