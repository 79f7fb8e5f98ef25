//! The instruction set of the bytecode machine.

use vstd::prelude::*;
use crate::terms::{Term, TermView};

verus! {

/// One instruction.
#[derive(Debug)]
pub enum Bytecode {
    Call(String),
    Unify(Term),
    Allocate,
    Deallocate,
    Backtrack,
    Proceed,
}

/// The mathematical value of a [`Bytecode`].
pub enum BytecodeView {
    Call(Seq<char>),
    Unify(TermView),
    Allocate,
    Deallocate,
    Backtrack,
    Proceed,
}

impl View for Bytecode {
    type V = BytecodeView;

    open spec fn view(&self) -> BytecodeView {
        match self {
            Bytecode::Call(predicate) => BytecodeView::Call(predicate@),
            Bytecode::Unify(term) => BytecodeView::Unify(term@),
            Bytecode::Allocate => BytecodeView::Allocate,
            Bytecode::Deallocate => BytecodeView::Deallocate,
            Bytecode::Backtrack => BytecodeView::Backtrack,
            Bytecode::Proceed => BytecodeView::Proceed,
        }
    }
}

/// The values of a sequence of instructions, position by position.
pub open spec fn view_code(code: Seq<Bytecode>) -> Seq<BytecodeView> {
    Seq::new(code.len(), |i: int| code[i]@)
}

} // verus!
