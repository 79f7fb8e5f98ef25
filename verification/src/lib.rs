//! A small logic-programming engine: terms and clauses, unification with
//! occurs-check, builtin predicates, and goal-directed search over a
//! database of facts and rules, together with a parser for programs and
//! queries and a formatter for answers.

pub mod arithmetic;
pub mod backtracking;
pub mod builtins;
pub mod bytecode;
pub mod database;
pub mod environment;
pub mod expr_parser;
pub mod interpreter;
pub mod parser;
pub mod result;
pub mod solver;
pub mod term_map;
pub mod terms;
pub mod text;
pub mod theory;
pub mod unification;
