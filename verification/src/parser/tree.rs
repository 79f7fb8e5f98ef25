//! The syntax tree that the parser builds.

use vstd::prelude::*;

verus! {

/// A parsed term.
pub type Term = Box<TermKind>;

/// A parsed rule body.
pub type Expr = Box<ExprKind>;

/// The kinds of parsed term.
#[derive(Debug)]
pub enum TermKind {
    Var(String),
    Atom(String),
    Integer(i64),
    String(String),
    Compound(String, Vec<Term>),
    List(Term, Term),
    EmptyList,
}

/// The kinds of parsed rule body: one goal, or a goal and the rest.
#[derive(Debug)]
pub enum ExprKind {
    Term(Term),
    Conjunct(Expr, Expr),
}

/// A parsed clause.
#[derive(Debug)]
pub enum Clause {
    Fact(Term),
    Rule(Term, Expr),
}

/// The mathematical value of a parsed term.
pub enum TreeView {
    Var(Seq<char>),
    Atom(Seq<char>),
    Integer(i64),
    String(Seq<char>),
    Compound(Seq<char>, Seq<TreeView>),
    List(Box<TreeView>, Box<TreeView>),
    EmptyList,
}

/// The mathematical value of a parsed rule body.
pub enum ExprView {
    Term(TreeView),
    Conjunct(Box<ExprView>, Box<ExprView>),
}

/// The mathematical value of a parsed clause.
pub enum ClauseTreeView {
    Fact(TreeView),
    Rule(TreeView, ExprView),
}

/// The values of a sequence of parsed terms, position by position.
pub open spec fn view_trees(trees: Seq<Term>) -> Seq<TreeView>
    decreases trees, 0nat,
{
    Seq::new(
        trees.len(),
        |i: int|
            if 0 <= i < trees.len() {
                view_tree(*trees[i])
            } else {
                TreeView::EmptyList
            },
    )
}

/// The value of a parsed term.
pub open spec fn view_tree(kind: TermKind) -> TreeView
    decreases kind, 1nat,
{
    match kind {
        TermKind::Var(name) => TreeView::Var(name@),
        TermKind::Atom(name) => TreeView::Atom(name@),
        TermKind::Integer(n) => TreeView::Integer(n),
        TermKind::String(text) => TreeView::String(text@),
        TermKind::Compound(name, args) => TreeView::Compound(name@, view_trees(args@)),
        TermKind::List(head, tail) => TreeView::List(
            Box::new(view_tree(*head)),
            Box::new(view_tree(*tail)),
        ),
        TermKind::EmptyList => TreeView::EmptyList,
    }
}

/// The value of a parsed rule body.
pub open spec fn view_expr(kind: ExprKind) -> ExprView
    decreases kind,
{
    match kind {
        ExprKind::Term(term) => ExprView::Term(view_tree(*term)),
        ExprKind::Conjunct(left, right) => ExprView::Conjunct(
            Box::new(view_expr(*left)),
            Box::new(view_expr(*right)),
        ),
    }
}

impl View for TermKind {
    type V = TreeView;

    open spec fn view(&self) -> TreeView {
        view_tree(*self)
    }
}

impl View for ExprKind {
    type V = ExprView;

    open spec fn view(&self) -> ExprView {
        view_expr(*self)
    }
}

impl View for Clause {
    type V = ClauseTreeView;

    open spec fn view(&self) -> ClauseTreeView {
        match self {
            Clause::Fact(term) => ClauseTreeView::Fact(term@),
            Clause::Rule(head, body) => ClauseTreeView::Rule(head@, body@),
        }
    }
}

/// The values of a sequence of parsed clauses, position by position.
pub open spec fn view_tree_clauses(clauses: Seq<Clause>) -> Seq<ClauseTreeView> {
    Seq::new(clauses.len(), |i: int| clauses[i]@)
}

/// The parsed empty list.
pub fn empty_list() -> (list: Term)
    ensures
        *list == TermKind::EmptyList,
{
    Box::new(TermKind::EmptyList)
}

/// The parsed list with the given head and tail.
pub fn cons_list(head: Term, tail: Term) -> (list: Term)
    ensures
        *list == TermKind::List(head, tail),
{
    Box::new(TermKind::List(head, tail))
}

} // verus!
