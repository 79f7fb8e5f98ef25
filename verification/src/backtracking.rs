//! The backtracking stack: deferred alternatives, most recent on top.

use vstd::prelude::*;
use crate::environment::Environment;
use crate::terms::{view_terms, Term, TermView};
use crate::unification::Bindings;

verus! {

/// A deferred alternative: the bindings in force when it was saved and the
/// goals to retry.
#[derive(Debug)]
pub struct ChoicePoint {
    pub env: Environment,
    pub alternatives: Vec<Term>,
}

/// The mathematical value of a [`ChoicePoint`].
pub struct ChoiceView {
    pub env: Bindings,
    pub alternatives: Seq<TermView>,
}

impl View for ChoicePoint {
    type V = ChoiceView;

    open spec fn view(&self) -> ChoiceView {
        ChoiceView { env: self.env@, alternatives: view_terms(self.alternatives@) }
    }
}

/// The values of a sequence of choice points, position by position.
pub open spec fn view_choices(choices: Seq<ChoicePoint>) -> Seq<ChoiceView> {
    Seq::new(choices.len(), |i: int| choices[i]@)
}

/// A stack of choice points.
#[derive(Debug)]
pub struct BacktrackingStack {
    stack: Vec<ChoicePoint>,
}

impl View for BacktrackingStack {
    type V = Seq<ChoiceView>;

    closed spec fn view(&self) -> Seq<ChoiceView> {
        view_choices(self.stack@)
    }
}

impl BacktrackingStack {
    /// The empty stack.
    pub fn new() -> (stack: BacktrackingStack)
        ensures
            stack@ == Seq::<ChoiceView>::empty(),
    {
        let stack = BacktrackingStack { stack: Vec::new() };
        assert(stack@ =~= Seq::<ChoiceView>::empty());
        stack
    }

    /// The number of choice points on the stack.
    pub fn len(&self) -> (n: usize)
        ensures
            n == self@.len(),
    {
        self.stack.len()
    }

    /// Puts a choice point on top.
    pub fn push(&mut self, choice: ChoicePoint)
        ensures
            final(self)@ == old(self)@.push(choice@),
    {
        self.stack.push(choice);
        assert(self@ =~= old(self)@.push(choice@));
    }

    /// Takes the most recent choice point off the stack; `None` when the
    /// stack is empty.
    pub fn pop(&mut self) -> (top: Option<ChoicePoint>)
        ensures
            match top {
                Some(choice) => old(self)@.len() > 0 && choice@ == old(self)@.last() && final(self)@
                    == old(self)@.drop_last(),
                None => old(self)@.len() == 0 && final(self)@ == old(self)@,
            },
    {
        let top = self.stack.pop();
        proof {
            if top is Some {
                assert(self@ =~= old(self)@.drop_last());
            }
        }
        top
    }
}

} // verus!
