//! The term model: terms, clauses and rule bodies, with their mathematical
//! values.

use vstd::prelude::*;
use crate::parser::tree::{Clause as TreeClause, ExprKind, Term as TreeTerm, TermKind};
use crate::text::{decimal, join_texts, push_decimal};
use crate::unification::{applied, apply_fuel, resolves, Bindings, Substitution};

verus! {

/// A logic term.
#[derive(Debug)]
pub enum Term {
    Constant(String),
    Variable(String),
    Compound(String, Vec<Term>),
    Integer(i64),
    /// A cons cell: head and tail.
    List(Box<Term>, Box<Term>),
    EmptyList,
}

/// The mathematical value of a [`Term`]: names are character sequences and
/// argument lists are sequences of term values.
pub enum TermView {
    Constant(Seq<char>),
    Variable(Seq<char>),
    Compound(Seq<char>, Seq<TermView>),
    Integer(i64),
    List(Box<TermView>, Box<TermView>),
    EmptyList,
}

/// The values of a sequence of terms, position by position.
pub open spec fn view_terms(terms: Seq<Term>) -> Seq<TermView>
    decreases terms, 0nat,
{
    Seq::new(
        terms.len(),
        |i: int|
            if 0 <= i < terms.len() {
                view_term(terms[i])
            } else {
                TermView::EmptyList
            },
    )
}

/// The value of one term.
pub open spec fn view_term(term: Term) -> TermView
    decreases term, 1nat,
{
    match term {
        Term::Constant(name) => TermView::Constant(name@),
        Term::Variable(name) => TermView::Variable(name@),
        Term::Compound(name, args) => TermView::Compound(name@, view_terms(args@)),
        Term::Integer(n) => TermView::Integer(n),
        Term::List(head, tail) => TermView::List(
            Box::new(view_term(*head)),
            Box::new(view_term(*tail)),
        ),
        Term::EmptyList => TermView::EmptyList,
    }
}

impl View for Term {
    type V = TermView;

    open spec fn view(&self) -> TermView {
        view_term(*self)
    }
}

/// The list term whose elements are `items`, in order, ended by the empty
/// list.
pub open spec fn list_of(items: Seq<TermView>) -> TermView
    decreases items.len(),
{
    if items.len() == 0 {
        TermView::EmptyList
    } else {
        TermView::List(Box::new(items[0]), Box::new(list_of(items.drop_first())))
    }
}

/// The elements of a proper list, or `None` for a term that is not a chain of
/// cons cells ended by the empty list.
pub open spec fn list_items(t: TermView) -> Option<Seq<TermView>>
    decreases t,
{
    match t {
        TermView::EmptyList => Some(Seq::empty()),
        TermView::List(head, tail) => match list_items(*tail) {
            Some(rest) => Some(seq![*head] + rest),
            None => None,
        },
        _ => None,
    }
}

/// Taking a list's elements gives back the sequence it was built from.
pub proof fn lemma_list_items_of_list(items: Seq<TermView>)
    ensures
        list_items(list_of(items)) == Some(items),
    decreases items.len(),
{
    if items.len() > 0 {
        lemma_list_items_of_list(items.drop_first());
        assert(seq![items[0]] + items.drop_first() =~= items);
    } else {
        assert(items =~= Seq::empty());
    }
}

/// A proper list is the list of its elements.
pub proof fn lemma_list_of_list_items(t: TermView)
    requires
        list_items(t) is Some,
    ensures
        list_of(list_items(t)->0) == t,
    decreases t,
{
    match t {
        TermView::List(head, tail) => {
            lemma_list_of_list_items(*tail);
            let rest = list_items(*tail)->0;
            assert((seq![*head] + rest).drop_first() =~= rest);
        },
        _ => {},
    }
}

/// The display text of each term of a sequence.
pub open spec fn texts_of(terms: Seq<TermView>) -> Seq<Seq<char>>
    decreases terms, 0nat,
{
    Seq::new(
        terms.len(),
        |i: int|
            if 0 <= i < terms.len() {
                term_text(terms[i])
            } else {
                Seq::empty()
            },
    )
}

/// The display text of a term: names as they are, integers in decimal, a
/// compound as `name(arg, arg)`, a cons cell as `[head | tail]` and the empty
/// list as `[]`.
pub open spec fn term_text(t: TermView) -> Seq<char>
    decreases t, 1nat,
{
    match t {
        TermView::Variable(name) => name,
        TermView::Integer(n) => decimal(n as int),
        TermView::Constant(name) => name,
        TermView::Compound(name, args) => name + "("@ + join_texts(texts_of(args), ", "@) + ")"@,
        TermView::List(head, tail) => "["@ + term_text(*head) + " | "@ + term_text(*tail) + "]"@,
        TermView::EmptyList => "[]"@,
    }
}

impl Clone for Term {
    fn clone(&self) -> (res: Self)
        ensures
            res@ == self@,
        decreases self,
    {
        match self {
            Term::Constant(name) => Term::Constant(name.clone()),
            Term::Variable(name) => Term::Variable(name.clone()),
            Term::Compound(name, args) => {
                let mut copies: Vec<Term> = Vec::new();
                let mut i: usize = 0;
                while i < args.len()
                    invariant
                        *self matches Term::Compound(_, a) && a == *args,
                        i <= args.len(),
                        copies.len() == i,
                        forall|j: int| 0 <= j < i ==> copies[j]@ == args[j]@,
                    decreases args.len() - i,
                {
                    proof {
                        vstd::std_specs::vec::axiom_vec_index_decreases(*args, i as int);
                    }
                    copies.push(args[i].clone());
                    i += 1;
                }
                assert(view_terms(copies@) =~= view_terms(args@));
                Term::Compound(name.clone(), copies)
            },
            Term::Integer(n) => Term::Integer(*n),
            Term::List(head, tail) => Term::List(
                Box::new((**head).clone()),
                Box::new((**tail).clone()),
            ),
            Term::EmptyList => Term::EmptyList,
        }
    }
}

/// Structural equality of two terms, decided field by field.
pub fn term_eq(a: &Term, b: &Term) -> (r: bool)
    ensures
        r == (a@ == b@),
    decreases a,
{
    match a {
        Term::Constant(x) => match b {
            Term::Constant(y) => *x == *y,
            _ => false,
        },
        Term::Variable(x) => match b {
            Term::Variable(y) => *x == *y,
            _ => false,
        },
        Term::Integer(x) => match b {
            Term::Integer(y) => *x == *y,
            _ => false,
        },
        Term::EmptyList => match b {
            Term::EmptyList => true,
            _ => false,
        },
        Term::List(h1, t1) => match b {
            Term::List(h2, t2) => term_eq(h1, h2) && term_eq(t1, t2),
            _ => false,
        },
        Term::Compound(f, xs) => match b {
            Term::Compound(g, ys) => {
                if !(*f == *g) || xs.len() != ys.len() {
                    assert(view_terms(xs@).len() == xs.len());
                    assert(view_terms(ys@).len() == ys.len());
                    return false;
                }
                let mut i: usize = 0;
                while i < xs.len()
                    invariant
                        *a matches Term::Compound(n, v) && n == *f && v == *xs,
                        *b matches Term::Compound(n, v) && n == *g && v == *ys,
                        f@ == g@,
                        xs.len() == ys.len(),
                        i <= xs.len(),
                        forall|j: int| 0 <= j < i ==> xs[j]@ == ys[j]@,
                    ensures
                        i == xs.len(),
                    decreases xs.len() - i,
                {
                    proof {
                        vstd::std_specs::vec::axiom_vec_index_decreases(*xs, i as int);
                    }
                    if !term_eq(&xs[i], &ys[i]) {
                        assert(view_terms(xs@)[i as int] != view_terms(ys@)[i as int]);
                        return false;
                    }
                    i += 1;
                }
                assert(view_terms(xs@) =~= view_terms(ys@));
                true
            },
            _ => false,
        },
    }
}

impl PartialEq for Term {
    fn eq(&self, other: &Term) -> (r: bool) {
        term_eq(self, other)
    }
}

impl vstd::std_specs::cmp::PartialEqSpecImpl for Term {
    open spec fn obeys_eq_spec() -> bool {
        true
    }

    open spec fn eq_spec(&self, other: &Term) -> bool {
        self@ == other@
    }
}

/// The term that a parsed term stands for: a quoted string becomes a
/// constant, everything else keeps its shape.
pub open spec fn term_of_tree(kind: TermKind) -> TermView
    decreases kind, 1nat,
{
    match kind {
        TermKind::Var(name) => TermView::Variable(name@),
        TermKind::Atom(value) => TermView::Constant(value@),
        TermKind::Integer(value) => TermView::Integer(value),
        TermKind::String(value) => TermView::Constant(value@),
        TermKind::Compound(name, args) => TermView::Compound(name@, terms_of_trees(args@)),
        TermKind::List(head, tail) => TermView::List(
            Box::new(term_of_tree(*head)),
            Box::new(term_of_tree(*tail)),
        ),
        TermKind::EmptyList => TermView::EmptyList,
    }
}

/// The terms that a sequence of parsed terms stands for.
pub open spec fn terms_of_trees(trees: Seq<TreeTerm>) -> Seq<TermView>
    decreases trees, 0nat,
{
    Seq::new(
        trees.len(),
        |i: int|
            if 0 <= i < trees.len() {
                term_of_tree(*trees[i])
            } else {
                TermView::EmptyList
            },
    )
}

/// The term that a parsed term stands for.
fn convert_term(kind: &TermKind) -> (term: Term)
    ensures
        term@ == term_of_tree(*kind),
    decreases kind,
{
    match kind {
        TermKind::Var(name) => Term::Variable(name.clone()),
        TermKind::Atom(value) => Term::Constant(value.clone()),
        TermKind::Integer(value) => Term::Integer(*value),
        TermKind::String(value) => Term::Constant(value.clone()),
        TermKind::Compound(name, args) => {
            let mut terms: Vec<Term> = Vec::new();
            let mut i: usize = 0;
            while i < args.len()
                invariant
                    *kind matches TermKind::Compound(_, a) && a == *args,
                    i <= args.len(),
                    terms.len() == i,
                    forall|j: int| 0 <= j < i ==> terms[j]@ == term_of_tree(*args[j]),
                decreases args.len() - i,
            {
                proof {
                    vstd::std_specs::vec::axiom_vec_index_decreases(*args, i as int);
                }
                terms.push(convert_term(&*args[i]));
                i += 1;
            }
            assert(view_terms(terms@) =~= terms_of_trees(args@));
            Term::Compound(name.clone(), terms)
        },
        TermKind::List(head, tail) => Term::List(
            Box::new(convert_term(&**head)),
            Box::new(convert_term(&**tail)),
        ),
        TermKind::EmptyList => Term::EmptyList,
    }
}

impl Term {
    /// The term that a parsed term stands for.
    pub fn from_tree_term(tree_term: TreeTerm) -> (term: Term)
        ensures
            term@ == term_of_tree(*tree_term),
    {
        convert_term(&*tree_term)
    }

    /// Builds the list term that holds the given terms in order.
    pub fn from_vec(vec: &[Term]) -> (list: Term)
        ensures
            list@ == list_of(view_terms(vec@)),
    {
        let mut list = Term::EmptyList;
        let mut i: usize = vec.len();
        let ghost items = view_terms(vec@);
        assert(items.subrange(i as int, items.len() as int) =~= Seq::empty());
        while i > 0
            invariant
                i <= vec.len(),
                items == view_terms(vec@),
                list@ == list_of(items.subrange(i as int, items.len() as int)),
            decreases i,
        {
            i -= 1;
            assert(items.subrange(i as int, items.len() as int).drop_first() =~= items.subrange(
                i as int + 1,
                items.len() as int,
            ));
            list = Term::List(Box::new(vec[i].clone()), Box::new(list));
        }
        assert(items.subrange(0, items.len() as int) =~= items);
        list
    }

    /// The elements of a proper list, in order; `None` for any other term.
    pub fn to_vec(&self) -> (elements: Option<Vec<Term>>)
        ensures
            match elements {
                Some(v) => list_items(self@) == Some(view_terms(v@)),
                None => list_items(self@) is None,
            },
    {
        let mut terms: Vec<Term> = Vec::new();
        let mut current = self;
        assert(view_terms(terms@) =~= Seq::empty());
        loop
            invariant
                list_items(self@) == match list_items(current@) {
                    Some(rest) => Some(view_terms(terms@) + rest),
                    None => None,
                },
            decreases current,
        {
            match current {
                Term::List(head, tail) => {
                    let ghost before = view_terms(terms@);
                    terms.push((**head).clone());
                    proof {
                        assert(view_terms(terms@) =~= before.push(head@));
                        match list_items(tail@) {
                            Some(rest) => {
                                assert(before + (seq![head@] + rest) =~= before.push(head@) + rest);
                            },
                            None => {},
                        }
                    }
                    current = &**tail;
                },
                Term::EmptyList => {
                    assert(view_terms(terms@) + Seq::<TermView>::empty() =~= view_terms(terms@));
                    return Some(terms);
                },
                _ => {
                    return None;
                },
            }
        }
    }

    /// Builds the list term that holds the given terms in order, consuming
    /// them.
    pub fn list_from_vec(elements: Vec<Term>) -> (list: Term)
        ensures
            list@ == list_of(view_terms(elements@)),
    {
        let mut elements = elements;
        let ghost items = view_terms(elements@);
        let mut list = Term::EmptyList;
        assert(items.subrange(items.len() as int, items.len() as int) =~= Seq::empty());
        while elements.len() > 0
            invariant
                elements.len() <= items.len(),
                view_terms(elements@) == items.subrange(0, elements.len() as int),
                list@ == list_of(items.subrange(elements.len() as int, items.len() as int)),
            decreases elements.len(),
        {
            let ghost n = elements.len() as int;
            let ghost before = view_terms(elements@);
            let last = elements.pop().unwrap();
            proof {
                assert(last@ == before[n - 1]);
                assert(view_terms(elements@) =~= items.subrange(0, n - 1));
                assert(items.subrange(n - 1, items.len() as int).drop_first() =~= items.subrange(
                    n,
                    items.len() as int,
                ));
            }
            list = Term::List(Box::new(last), Box::new(list));
        }
        assert(items.subrange(0, items.len() as int) =~= items);
        list
    }

    /// Appends the display text of this term to `out`.
    pub fn write_text(&self, out: &mut String)
        ensures
            final(out)@ == old(out)@ + term_text(self@),
        decreases self,
    {
        match self {
            Term::Variable(name) => {
                out.append(name.as_str());
            },
            Term::Integer(n) => {
                push_decimal(out, *n);
            },
            Term::Constant(name) => {
                out.append(name.as_str());
            },
            Term::Compound(name, args) => {
                out.append(name.as_str());
                out.append("(");
                let ghost start = out@;
                let ghost texts = texts_of(view_terms(args@));
                let mut i: usize = 0;
                assert(texts.subrange(0, 0) =~= Seq::empty());
                while i < args.len()
                    invariant
                        *self matches Term::Compound(_, a) && a == *args,
                        i <= args.len(),
                        texts == texts_of(view_terms(args@)),
                        out@ == start + join_texts(texts.subrange(0, i as int), ", "@),
                    decreases args.len() - i,
                {
                    proof {
                        vstd::std_specs::vec::axiom_vec_index_decreases(*args, i as int);
                    }
                    if i > 0 {
                        out.append(", ");
                    }
                    args[i].write_text(out);
                    proof {
                        let grown = texts.subrange(0, i as int + 1);
                        assert(grown.drop_last() =~= texts.subrange(0, i as int));
                        assert(grown.last() == term_text(args[i as int]@));
                        if i > 0 {
                            assert(out@ =~= start + join_texts(grown, ", "@));
                        } else {
                            assert(join_texts(texts.subrange(0, 0), ", "@) =~= Seq::empty());
                            assert(out@ =~= start + join_texts(grown, ", "@));
                        }
                    }
                    i += 1;
                }
                assert(texts.subrange(0, i as int) =~= texts);
                out.append(")");
                assert(out@ =~= old(out)@ + term_text(self@));
            },
            Term::List(head, tail) => {
                out.append("[");
                head.write_text(out);
                out.append(" | ");
                tail.write_text(out);
                out.append("]");
                assert(out@ =~= old(out)@ + term_text(self@));
            },
            Term::EmptyList => {
                out.append("[]");
            },
        }
    }

    /// The display text of this term.
    pub fn to_string(&self) -> (text: String)
        ensures
            text@ == term_text(self@),
    {
        let mut text = String::new();
        self.write_text(&mut text);
        assert(text@ =~= term_text(self@));
        text
    }
}

/// The body of a rule: one goal, or a goal and the rest of the body.
#[derive(Debug)]
pub enum Expression {
    Term(Term),
    Conjunct(Box<Expression>, Box<Expression>),
}

/// The mathematical value of an [`Expression`].
pub enum ExpressionView {
    Term(TermView),
    Conjunct(Box<ExpressionView>, Box<ExpressionView>),
}

/// The value of a rule body.
pub open spec fn view_expression(e: Expression) -> ExpressionView
    decreases e,
{
    match e {
        Expression::Term(term) => ExpressionView::Term(term@),
        Expression::Conjunct(left, right) => ExpressionView::Conjunct(
            Box::new(view_expression(*left)),
            Box::new(view_expression(*right)),
        ),
    }
}

impl View for Expression {
    type V = ExpressionView;

    open spec fn view(&self) -> ExpressionView {
        view_expression(*self)
    }
}

/// A clause: a fact, or a rule with head and body.
#[derive(Debug)]
pub enum Clause {
    Fact(Term),
    Rule(Term, Expression),
}

/// The mathematical value of a [`Clause`].
pub enum ClauseView {
    Fact(TermView),
    Rule(TermView, ExpressionView),
}

impl View for Clause {
    type V = ClauseView;

    open spec fn view(&self) -> ClauseView {
        match self {
            Clause::Fact(head) => ClauseView::Fact(head@),
            Clause::Rule(head, body) => ClauseView::Rule(head@, body@),
        }
    }
}

/// The body that a parsed body stands for.
pub open spec fn expression_of_tree(kind: ExprKind) -> ExpressionView
    decreases kind,
{
    match kind {
        ExprKind::Term(term) => ExpressionView::Term(term_of_tree(*term)),
        ExprKind::Conjunct(left, right) => ExpressionView::Conjunct(
            Box::new(expression_of_tree(*left)),
            Box::new(expression_of_tree(*right)),
        ),
    }
}

/// The clause that a parsed clause stands for.
pub open spec fn clause_of_tree(clause: TreeClause) -> ClauseView {
    match clause {
        TreeClause::Fact(term) => ClauseView::Fact(term_of_tree(*term)),
        TreeClause::Rule(head, body) => ClauseView::Rule(term_of_tree(*head), expression_of_tree(*body)),
    }
}

/// What a body becomes when `m` is applied to each of its goals with the
/// given fuel; `None` when the fuel does not suffice for one of them.
pub open spec fn apply_expression_fuel(m: Bindings, e: ExpressionView, fuel: nat) -> Option<
    ExpressionView,
>
    decreases e,
{
    match e {
        ExpressionView::Term(term) => match apply_fuel(m, term, fuel) {
            Some(t) => Some(ExpressionView::Term(t)),
            None => None,
        },
        ExpressionView::Conjunct(left, right) => match apply_expression_fuel(m, *left, fuel) {
            Some(l) => match apply_expression_fuel(m, *right, fuel) {
                Some(r) => Some(ExpressionView::Conjunct(Box::new(l), Box::new(r))),
                None => None,
            },
            None => None,
        },
    }
}

/// Whether every goal of the body resolves under `m`.
pub open spec fn expression_resolves(m: Bindings, e: ExpressionView) -> bool
    decreases e,
{
    match e {
        ExpressionView::Term(term) => resolves(m, term),
        ExpressionView::Conjunct(left, right) => expression_resolves(m, *left) && expression_resolves(
            m,
            *right,
        ),
    }
}

/// The body with `m` applied to each of its goals.
pub open spec fn applied_expression(m: Bindings, e: ExpressionView) -> ExpressionView
    decreases e,
{
    match e {
        ExpressionView::Term(term) => ExpressionView::Term(applied(m, term)),
        ExpressionView::Conjunct(left, right) => ExpressionView::Conjunct(
            Box::new(applied_expression(m, *left)),
            Box::new(applied_expression(m, *right)),
        ),
    }
}

/// Any fuel that suffices for a body arrives at the applied body.
pub proof fn lemma_applied_expression(m: Bindings, e: ExpressionView, fuel: nat)
    requires
        apply_expression_fuel(m, e, fuel) is Some,
    ensures
        expression_resolves(m, e),
        apply_expression_fuel(m, e, fuel) == Some(applied_expression(m, e)),
    decreases e,
{
    match e {
        ExpressionView::Term(term) => {
            crate::unification::lemma_applied(m, term, fuel);
        },
        ExpressionView::Conjunct(left, right) => {
            lemma_applied_expression(m, *left, fuel);
            lemma_applied_expression(m, *right, fuel);
        },
    }
}

/// A body whose goals all resolve is applied with as much fuel as there are
/// bindings.
pub proof fn lemma_expression_fuel_suffices(m: Bindings, e: ExpressionView)
    requires
        m.dom().finite(),
        expression_resolves(m, e),
    ensures
        apply_expression_fuel(m, e, m.len()) is Some,
    decreases e,
{
    match e {
        ExpressionView::Term(term) => {
            crate::theory::lemma_fuel_suffices(m, term);
        },
        ExpressionView::Conjunct(left, right) => {
            lemma_expression_fuel_suffices(m, *left);
            lemma_expression_fuel_suffices(m, *right);
        },
    }
}

/// The value of an optional body.
pub open spec fn view_option_expression(e: Option<Expression>) -> Option<ExpressionView> {
    match e {
        Some(body) => Some(body@),
        None => None,
    }
}

impl Clone for Expression {
    fn clone(&self) -> (copy: Self)
        ensures
            copy@ == self@,
        decreases self,
    {
        match self {
            Expression::Term(term) => Expression::Term(term.clone()),
            Expression::Conjunct(left, right) => Expression::Conjunct(
                Box::new((**left).clone()),
                Box::new((**right).clone()),
            ),
        }
    }
}

/// Structural equality of two bodies.
pub fn expression_eq(a: &Expression, b: &Expression) -> (r: bool)
    ensures
        r == (a@ == b@),
    decreases a,
{
    match a {
        Expression::Term(x) => match b {
            Expression::Term(y) => term_eq(x, y),
            _ => false,
        },
        Expression::Conjunct(l1, r1) => match b {
            Expression::Conjunct(l2, r2) => expression_eq(l1, l2) && expression_eq(r1, r2),
            _ => false,
        },
    }
}

impl PartialEq for Expression {
    fn eq(&self, other: &Expression) -> (r: bool) {
        expression_eq(self, other)
    }
}

impl vstd::std_specs::cmp::PartialEqSpecImpl for Expression {
    open spec fn obeys_eq_spec() -> bool {
        true
    }

    open spec fn eq_spec(&self, other: &Expression) -> bool {
        self@ == other@
    }
}

impl Clone for Clause {
    fn clone(&self) -> (copy: Self)
        ensures
            copy@ == self@,
    {
        match self {
            Clause::Fact(head) => Clause::Fact(head.clone()),
            Clause::Rule(head, body) => Clause::Rule(head.clone(), body.clone()),
        }
    }
}

impl PartialEq for Clause {
    fn eq(&self, other: &Clause) -> (r: bool) {
        match self {
            Clause::Fact(x) => match other {
                Clause::Fact(y) => term_eq(x, y),
                _ => false,
            },
            Clause::Rule(h1, b1) => match other {
                Clause::Rule(h2, b2) => term_eq(h1, h2) && expression_eq(b1, b2),
                _ => false,
            },
        }
    }
}

impl vstd::std_specs::cmp::PartialEqSpecImpl for Clause {
    open spec fn obeys_eq_spec() -> bool {
        true
    }

    open spec fn eq_spec(&self, other: &Clause) -> bool {
        self@ == other@
    }
}

/// The body that a parsed body stands for.
fn convert_expression(kind: &ExprKind) -> (body: Expression)
    ensures
        body@ == expression_of_tree(*kind),
    decreases kind,
{
    match kind {
        ExprKind::Term(term) => Expression::Term(convert_term(&**term)),
        ExprKind::Conjunct(left, right) => Expression::Conjunct(
            Box::new(convert_expression(&**left)),
            Box::new(convert_expression(&**right)),
        ),
    }
}

impl Clause {
    /// The clause that a parsed clause stands for.
    pub fn from_tree_clause(tree_clause: TreeClause) -> (clause: Clause)
        ensures
            clause@ == clause_of_tree(tree_clause),
    {
        match &tree_clause {
            TreeClause::Fact(term) => Clause::Fact(convert_term(&**term)),
            TreeClause::Rule(head, body) => Clause::Rule(
                convert_term(&**head),
                convert_expression(&**body),
            ),
        }
    }
}

impl Expression {
    /// The body that a parsed body stands for.
    pub fn from_tree_expr(expr: Box<ExprKind>) -> (body: Expression)
        ensures
            body@ == expression_of_tree(*expr),
    {
        convert_expression(&*expr)
    }

    /// The body with `subs` applied to each of its goals.
    pub fn apply(&self, subs: &Substitution) -> (body: Expression)
        requires
            expression_resolves(subs@, self@),
        ensures
            body@ == applied_expression(subs@, self@),
        decreases self,
    {
        match self {
            Expression::Term(term) => Expression::Term(subs.apply(term)),
            Expression::Conjunct(left, right) => Expression::Conjunct(
                Box::new(left.apply(subs)),
                Box::new(right.apply(subs)),
            ),
        }
    }

    /// The body with `subs` applied to each of its goals, following each
    /// chain of bindings for at most `fuel` steps.
    pub fn apply_bounded(&self, subs: &Substitution, fuel: usize) -> (body: Option<Expression>)
        ensures
            view_option_expression(body) == apply_expression_fuel(subs@, self@, fuel as nat),
        decreases self,
    {
        match self {
            Expression::Term(term) => match subs.apply_bounded(term, fuel) {
                Some(t) => Some(Expression::Term(t)),
                None => None,
            },
            Expression::Conjunct(left, right) => match left.apply_bounded(subs, fuel) {
                Some(l) => match right.apply_bounded(subs, fuel) {
                    Some(r) => Some(Expression::Conjunct(Box::new(l), Box::new(r))),
                    None => None,
                },
                None => None,
            },
        }
    }

    /// The body with `subs` applied to each of its goals; `None` when some
    /// chain of bindings does not end.
    pub fn try_apply(&self, subs: &Substitution) -> (body: Option<Expression>)
        ensures
            match body {
                Some(b) => expression_resolves(subs@, self@) && b@ == applied_expression(subs@, self@),
                None => !expression_resolves(subs@, self@),
            },
    {
        let fuel = subs.len();
        let body = self.apply_bounded(subs, fuel);
        proof {
            if body is Some {
                lemma_applied_expression(subs@, self@, fuel as nat);
            } else if expression_resolves(subs@, self@) {
                lemma_expression_fuel_suffices(subs@, self@);
            }
        }
        body
    }

    /// The body that consists of the single goal `term`.
    pub fn from_term(term: Term) -> (body: Expression)
        ensures
            body == Expression::Term(term),
    {
        Expression::Term(term)
    }
}

} // verus!
