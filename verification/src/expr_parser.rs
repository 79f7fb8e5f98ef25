//! Folds a flat sequence of operands and operator atoms into a tree, by
//! operator precedence.

use vstd::prelude::*;
use crate::terms::{view_terms, Term, TermView};
use crate::text::same_text;

verus! {

/// How tightly an operator binds: 3 for `*` and `/`, 2 for `+` and `-`, 1
/// for the relational operators, 0 for anything else.
pub open spec fn strength(op: Seq<char>) -> nat {
    if op == "*"@ || op == "/"@ {
        3
    } else if op == "+"@ || op == "-"@ {
        2
    } else if op == "<"@ || op == ">"@ || op == "=<"@ || op == ">="@ || op == "="@ || op == "\\="@ {
        1
    } else {
        0
    }
}

/// The expression that starts with the operand at `pos`, and the position
/// after it; `None` when there is no operand at `pos`.
pub open spec fn folded_at(terms: Seq<TermView>, pos: nat, min_prec: nat) -> Option<(TermView, nat)>
    decreases terms.len() - pos, 1nat,
{
    if pos >= terms.len() {
        None
    } else {
        folded_rest(terms, pos + 1, min_prec, terms[pos as int])
    }
}

/// The expression that `left` grows into. A constant that follows is taken
/// as an operator: one that binds less tightly than `min_prec` ends the
/// expression and is passed over; any other takes `left` and the expression
/// of tighter binding after it as its operands. Anything else that follows
/// ends the expression and is passed over too.
///
/// The test that the right operand ends after `pos` always holds
/// (`lemma_folded_at_advances`); it makes the definition well-founded.
pub open spec fn folded_rest(terms: Seq<TermView>, pos: nat, min_prec: nat, left: TermView) -> Option<
    (TermView, nat),
>
    decreases terms.len() - pos, 0nat,
{
    if pos >= terms.len() {
        Some((left, pos))
    } else {
        match terms[pos as int] {
            TermView::Constant(op) => if strength(op) < min_prec {
                Some((left, pos + 1))
            } else {
                match folded_at(terms, pos + 1, strength(op) + 1) {
                    Some((right, next)) => if pos < next <= terms.len() {
                        folded_rest(terms, next, min_prec, TermView::Compound(op, seq![left, right]))
                    } else {
                        None
                    },
                    None => None,
                }
            },
            _ => Some((left, pos + 1)),
        }
    }
}

/// An expression ends after the position it starts at, within the
/// sequence.
pub proof fn lemma_folded_at_advances(terms: Seq<TermView>, pos: nat, min_prec: nat)
    ensures
        folded_at(terms, pos, min_prec) matches Some((_, next)) ==> pos < next <= terms.len(),
    decreases terms.len() - pos, 1nat,
{
    if pos < terms.len() {
        lemma_folded_rest_advances(terms, pos + 1, min_prec, terms[pos as int]);
    }
}

/// What an operand grows into ends at or after the position it is
/// continued from, within the sequence.
pub proof fn lemma_folded_rest_advances(terms: Seq<TermView>, pos: nat, min_prec: nat, left: TermView)
    requires
        pos <= terms.len(),
    ensures
        folded_rest(terms, pos, min_prec, left) matches Some((_, next)) ==> pos <= next <= terms.len(),
    decreases terms.len() - pos, 0nat,
{
    if pos < terms.len() {
        match terms[pos as int] {
            TermView::Constant(op) => {
                if strength(op) >= min_prec {
                    lemma_folded_at_advances(terms, pos + 1, strength(op) + 1);
                    match folded_at(terms, pos + 1, strength(op) + 1) {
                        Some((right, next)) => {
                            lemma_folded_rest_advances(
                                terms,
                                next,
                                min_prec,
                                TermView::Compound(op, seq![left, right]),
                            );
                        },
                        None => {},
                    }
                }
            },
            _ => {},
        }
    }
}

/// What a flat sequence of operands and operators folds into.
pub open spec fn folded(terms: Seq<TermView>) -> Option<TermView> {
    match folded_at(terms, 0, 0) {
        Some((tree, _)) => Some(tree),
        None => None,
    }
}

/// What a term folds into: a compound gives the fold of its arguments,
/// anything else is itself.
pub open spec fn preprocessed(term: TermView) -> Option<TermView> {
    match term {
        TermView::Compound(_, args) => folded(args),
        _ => Some(term),
    }
}

/// How tightly an operator binds.
fn precedence(op: &str) -> (prec: u8)
    ensures
        prec == strength(op@),
{
    if same_text(op, "*") || same_text(op, "/") {
        3
    } else if same_text(op, "+") || same_text(op, "-") {
        2
    } else if same_text(op, "<") || same_text(op, ">") || same_text(op, "=<") || same_text(op, ">=")
        || same_text(op, "=") || same_text(op, "\\=") {
        1
    } else {
        0
    }
}

/// Takes the operand at `pos`, if there is one.
fn parse_primary(terms: &[Term], pos: &mut usize) -> (operand: Option<Term>)
    requires
        *old(pos) <= terms.len(),
    ensures
        match operand {
            Some(term) => *old(pos) < terms.len() && term@ == terms[*old(pos) as int]@ && *final(pos)
                == *old(pos) + 1,
            None => *old(pos) >= terms.len() && *final(pos) == *old(pos),
        },
{
    if *pos < terms.len() {
        let term = terms[*pos].clone();
        *pos += 1;
        Some(term)
    } else {
        None
    }
}

/// Reads the expression that starts with the operand at `pos`.
fn parse_with_precedence(terms: &[Term], pos: &mut usize, min_prec: u8) -> (result: Option<Term>)
    requires
        *old(pos) <= terms.len(),
        min_prec <= 4,
    ensures
        *final(pos) <= terms.len(),
        match result {
            Some(tree) => folded_at(view_terms(terms@), *old(pos) as nat, min_prec as nat) == Some(
                (tree@, *final(pos) as nat),
            ) && *old(pos) < *final(pos),
            None => folded_at(view_terms(terms@), *old(pos) as nat, min_prec as nat) is None,
        },
    decreases terms.len() - *old(pos), 1nat,
{
    let ghost views = view_terms(terms@);
    let left = match parse_primary(terms, pos) {
        Some(left) => left,
        None => {
            return None;
        },
    };
    assert(views[*old(pos) as int] == terms[*old(pos) as int]@);
    parse_rest(terms, pos, min_prec, left)
}

/// Reads what the operand `left` grows into.
fn parse_rest(terms: &[Term], pos: &mut usize, min_prec: u8, left: Term) -> (result: Option<Term>)
    requires
        *old(pos) <= terms.len(),
        min_prec <= 4,
    ensures
        *final(pos) <= terms.len(),
        match result {
            Some(tree) => folded_rest(view_terms(terms@), *old(pos) as nat, min_prec as nat, left@) == Some(
                (tree@, *final(pos) as nat),
            ) && *old(pos) <= *final(pos),
            None => folded_rest(view_terms(terms@), *old(pos) as nat, min_prec as nat, left@) is None,
        },
    decreases terms.len() - *old(pos), 0nat,
{
    let ghost views = view_terms(terms@);
    if *pos >= terms.len() {
        return Some(left);
    }
    assert(views[*pos as int] == terms[*pos as int]@);
    let op_term = &terms[*pos];
    *pos += 1;
    match op_term {
        Term::Constant(op) => {
            let prec = precedence(op.as_str());
            if prec < min_prec {
                return Some(left);
            }
            let right = match parse_with_precedence(terms, pos, prec + 1) {
                Some(right) => right,
                None => {
                    return None;
                },
            };
            let ghost l = left@;
            let ghost r = right@;
            let mut operands: Vec<Term> = Vec::new();
            operands.push(left);
            operands.push(right);
            assert(view_terms(operands@) =~= seq![l, r]);
            parse_rest(terms, pos, min_prec, Term::Compound(op.clone(), operands))
        },
        _ => Some(left),
    }
}

/// Folds a flat sequence of operands and operator atoms into one term;
/// `None` where an operand is missing.
pub fn parse_expression_with_precedence(terms: &[Term]) -> (result: Option<Term>)
    ensures
        crate::unification::view_option(result) == folded(view_terms(terms@)),
{
    let mut pos: usize = 0;
    parse_with_precedence(terms, &mut pos, 0)
}

/// Folds the arguments of a compound into one term; any other term is
/// returned as it is.
pub fn preprocess_expression(term: &Term) -> (result: Option<Term>)
    ensures
        crate::unification::view_option(result) == preprocessed(term@),
{
    match term {
        Term::Compound(_, args) => parse_expression_with_precedence(args.as_slice()),
        _ => Some(term.clone()),
    }
}

} // verus!
