//! The clause database: an ordered collection of facts and rules.

use vstd::prelude::*;
use crate::terms::{Clause, ClauseView, Term, TermView};
use crate::unification::{unified, Bindings};

verus! {

/// The values of a sequence of clauses, position by position.
pub open spec fn view_clauses(clauses: Seq<Clause>) -> Seq<ClauseView> {
    Seq::new(clauses.len(), |i: int| clauses[i]@)
}

/// An ordered collection of clauses.
#[derive(Debug)]
pub struct Database {
    pub clauses: Vec<Clause>,
}

impl View for Database {
    type V = Seq<ClauseView>;

    open spec fn view(&self) -> Seq<ClauseView> {
        view_clauses(self.clauses@)
    }
}

impl Database {
    /// The database that holds the given clauses in the given order.
    pub fn new(clauses: Vec<Clause>) -> (db: Database)
        ensures
            db.clauses == clauses,
            db@ == view_clauses(clauses@),
    {
        Database { clauses }
    }
}

/// The head of a clause.
pub open spec fn head_of(clause: ClauseView) -> TermView {
    match clause {
        ClauseView::Fact(head) => head,
        ClauseView::Rule(head, _) => head,
    }
}

/// Whether a head may unify with a goal, going by their shape alone: two
/// compounds need the same name and the same number of arguments, anything
/// else may unify.
pub open spec fn may_unify(head: TermView, goal: TermView) -> bool {
    match head {
        TermView::Compound(f, xs) => match goal {
            TermView::Compound(g, ys) => f == g && xs.len() == ys.len(),
            _ => true,
        },
        _ => true,
    }
}

/// The clauses whose heads may unify with the goal, in their order.
pub open spec fn candidates(clauses: Seq<ClauseView>, goal: TermView) -> Seq<ClauseView> {
    clauses.filter(|clause: ClauseView| may_unify(head_of(clause), goal))
}

/// No head that unifies with a goal fails to be one that may unify with
/// it.
pub proof fn lemma_unified_may_unify(head: TermView, goal: TermView, m: Bindings)
    requires
        unified(head, goal, m) is Some,
    ensures
        may_unify(head, goal),
{
}

/// Whether a head may unify with a goal, going by their shape alone.
fn may_match(head: &Term, goal: &Term) -> (r: bool)
    ensures
        r == may_unify(head@, goal@),
{
    match head {
        Term::Compound(f, xs) => match goal {
            Term::Compound(g, ys) => {
                proof {
                    assert(crate::terms::view_terms(xs@).len() == xs.len());
                    assert(crate::terms::view_terms(ys@).len() == ys.len());
                }
                *f == *g && xs.len() == ys.len()
            },
            _ => true,
        },
        _ => true,
    }
}

impl Database {
    /// The clauses whose heads may unify with `query_term`, in declaration
    /// order. Whether a head does unify is left to the caller.
    pub fn find_candidates(&self, query_term: &Term) -> (found: Vec<Clause>)
        ensures
            view_clauses(found@) == candidates(self@, query_term@),
    {
        let mut found: Vec<Clause> = Vec::new();
        let ghost keep = |clause: ClauseView| may_unify(head_of(clause), query_term@);
        let mut i: usize = 0;
        proof {
            reveal(Seq::filter);
            assert(self@.subrange(0, 0) =~= Seq::empty());
            assert(view_clauses(found@) =~= Seq::empty());
        }
        while i < self.clauses.len()
            invariant
                i <= self.clauses.len(),
                keep == |clause: ClauseView| may_unify(head_of(clause), query_term@),
                view_clauses(found@) == self@.subrange(0, i as int).filter(keep),
            decreases self.clauses.len() - i,
        {
            let clause = &self.clauses[i];
            let head = match clause {
                Clause::Fact(head) => head,
                Clause::Rule(head, _) => head,
            };
            proof {
                let seen = self@.subrange(0, i as int);
                let grown = self@.subrange(0, i as int + 1);
                assert(grown =~= seen.push(self@[i as int]));
                assert(grown.drop_last() =~= seen);
                reveal(Seq::filter);
                assert(self@[i as int] == clause@);
            }
            if may_match(head, query_term) {
                let ghost before = view_clauses(found@);
                found.push(clause.clone());
                assert(view_clauses(found@) =~= before.push(clause@));
            }
            i += 1;
        }
        assert(self@.subrange(0, i as int) =~= self@);
        found
    }
}

} // verus!
