//! A variable environment: the bindings that a choice point saves.

use vstd::prelude::*;
use crate::term_map::TermMap;
use crate::unification::Bindings;

verus! {

/// A set of variable bindings.
#[derive(Debug)]
pub struct Environment {
    pub bindings: TermMap,
}

impl View for Environment {
    type V = Bindings;

    open spec fn view(&self) -> Bindings {
        self.bindings@
    }
}

impl Environment {
    /// The environment that binds nothing.
    pub fn new() -> (env: Environment)
        ensures
            env@ == Map::<Seq<char>, crate::terms::TermView>::empty(),
    {
        Environment { bindings: TermMap::new() }
    }
}

impl Clone for Environment {
    fn clone(&self) -> (copy: Self)
        ensures
            copy@ == self@,
    {
        Environment { bindings: self.bindings.clone() }
    }
}

} // verus!
