//! The bytecode machine: runs instructions over an environment and a stack
//! of choice points, and reports what it did.

use vstd::prelude::*;
use crate::backtracking::{BacktrackingStack, ChoicePoint, ChoiceView};
use crate::bytecode::{view_code, Bytecode, BytecodeView};
use crate::environment::Environment;
use crate::terms::{term_text, Term, TermView};
use crate::unification::Bindings;

verus! {

/// One thing the machine did.
#[derive(Debug)]
pub enum Event {
    /// A predicate was called.
    Calling(String),
    /// A term was to be unified.
    Unifying(Term),
    /// An environment was set up.
    Allocating,
    /// An environment was taken down.
    Deallocating,
    /// Backtracking began.
    Backtracking,
    /// The environment of a choice point was put back.
    Restoring,
    /// The machine went on to the next instruction.
    Proceeding,
}

/// The mathematical value of an [`Event`].
pub enum EventView {
    Calling(Seq<char>),
    Unifying(TermView),
    Allocating,
    Deallocating,
    Backtracking,
    Restoring,
    Proceeding,
}

impl View for Event {
    type V = EventView;

    open spec fn view(&self) -> EventView {
        match self {
            Event::Calling(predicate) => EventView::Calling(predicate@),
            Event::Unifying(term) => EventView::Unifying(term@),
            Event::Allocating => EventView::Allocating,
            Event::Deallocating => EventView::Deallocating,
            Event::Backtracking => EventView::Backtracking,
            Event::Restoring => EventView::Restoring,
            Event::Proceeding => EventView::Proceeding,
        }
    }
}

/// The values of a sequence of events, position by position.
pub open spec fn view_events(events: Seq<Event>) -> Seq<EventView> {
    Seq::new(events.len(), |i: int| events[i]@)
}

/// The state of the machine: the bindings in force and the stack of choice
/// points.
pub struct Machine {
    pub env: Bindings,
    pub stack: Seq<ChoiceView>,
}

/// What one instruction does. Backtracking takes the most recent choice
/// point off the stack, puts its environment back and calls each of its
/// alternatives by its display text; everything else only reports itself.
pub open spec fn stepped(instruction: BytecodeView, machine: Machine) -> (Seq<EventView>, Machine) {
    match instruction {
        BytecodeView::Call(predicate) => (seq![EventView::Calling(predicate)], machine),
        BytecodeView::Unify(term) => (seq![EventView::Unifying(term)], machine),
        BytecodeView::Allocate => (seq![EventView::Allocating], machine),
        BytecodeView::Deallocate => (seq![EventView::Deallocating], machine),
        BytecodeView::Backtrack => if machine.stack.len() > 0 {
            let choice = machine.stack.last();
            (
                seq![EventView::Backtracking, EventView::Restoring] + Seq::new(
                    choice.alternatives.len(),
                    |k: int| EventView::Calling(term_text(choice.alternatives[k])),
                ),
                Machine { env: choice.env, stack: machine.stack.drop_last() },
            )
        } else {
            (seq![EventView::Backtracking], machine)
        },
        BytecodeView::Proceed => (seq![EventView::Proceeding], machine),
    }
}

/// What running the instructions from position `i` on does.
pub open spec fn executed(code: Seq<BytecodeView>, i: nat, machine: Machine) -> (Seq<EventView>, Machine)
    decreases code.len() - i,
{
    if i >= code.len() {
        (Seq::empty(), machine)
    } else {
        let (events, next) = stepped(code[i as int], machine);
        let (rest, last) = executed(code, i + 1, next);
        (events + rest, last)
    }
}

/// The bytecode machine.
#[derive(Debug)]
pub struct Interpreter {
    env: Environment,
    stack: BacktrackingStack,
}

impl View for Interpreter {
    type V = Machine;

    closed spec fn view(&self) -> Machine {
        Machine { env: self.env@, stack: self.stack@ }
    }
}

impl Interpreter {
    /// A machine with no bindings and no choice points.
    pub fn new() -> (machine: Interpreter)
        ensures
            machine@ == (Machine { env: Map::empty(), stack: Seq::empty() }),
    {
        Interpreter { env: Environment::new(), stack: BacktrackingStack::new() }
    }

    /// Runs the instructions in order and reports what was done.
    pub fn execute(&mut self, code: Vec<Bytecode>) -> (events: Vec<Event>)
        ensures
            (view_events(events@), final(self)@) == executed(view_code(code@), 0, old(self)@),
    {
        let mut events: Vec<Event> = Vec::new();
        let ghost program = view_code(code@);
        let mut i: usize = 0;
        assert(view_events(events@) =~= Seq::empty());
        while i < code.len()
            invariant
                i <= code.len(),
                program == view_code(code@),
                executed(program, 0, old(self)@) == ({
                    let (rest, last) = executed(program, i as nat, self@);
                    (view_events(events@) + rest, last)
                }),
            decreases code.len() - i,
        {
            let ghost before = view_events(events@);
            let ghost machine = self@;
            assert(program[i as int] == code[i as int]@);
            match &code[i] {
                Bytecode::Call(predicate) => {
                    match self.get_alternatives(predicate.as_str()) {
                        Some(alternatives) => {
                            self.stack.push(ChoicePoint { env: self.env.clone(), alternatives });
                        },
                        None => {},
                    }
                    events.push(Event::Calling(predicate.clone()));
                },
                Bytecode::Unify(term) => {
                    events.push(Event::Unifying(term.clone()));
                },
                Bytecode::Allocate => {
                    events.push(Event::Allocating);
                },
                Bytecode::Deallocate => {
                    events.push(Event::Deallocating);
                },
                Bytecode::Backtrack => {
                    events.push(Event::Backtracking);
                    match self.stack.pop() {
                        Some(choice) => {
                            events.push(Event::Restoring);
                            let mut k: usize = 0;
                            let ghost marked = view_events(events@);
                            assert(marked =~= before + seq![EventView::Backtracking, EventView::Restoring]);
                            while k < choice.alternatives.len()
                                invariant
                                    k <= choice.alternatives.len(),
                                    view_events(events@) == marked + Seq::new(
                                        k as nat,
                                        |j: int| EventView::Calling(term_text(choice@.alternatives[j])),
                                    ),
                                decreases choice.alternatives.len() - k,
                            {
                                let ghost sofar = view_events(events@);
                                assert(choice@.alternatives[k as int] == choice.alternatives[k as int]@);
                                events.push(Event::Calling(choice.alternatives[k].to_string()));
                                assert(view_events(events@) =~= sofar.push(
                                    EventView::Calling(term_text(choice@.alternatives[k as int])),
                                ));
                                assert(view_events(events@) =~= marked + Seq::new(
                                    (k + 1) as nat,
                                    |j: int| EventView::Calling(term_text(choice@.alternatives[j])),
                                ));
                                k += 1;
                            }
                            self.env = choice.env;
                        },
                        None => {},
                    }
                },
                Bytecode::Proceed => {
                    events.push(Event::Proceeding);
                },
            }
            proof {
                let (step, next) = stepped(program[i as int], machine);
                assert(self@ == next);
                assert(view_events(events@) =~= before + step);
                let (rest, last) = executed(program, (i + 1) as nat, next);
                assert(before + (step + rest) =~= (before + step) + rest);
            }
            i += 1;
        }
        assert(view_events(events@) + Seq::<EventView>::empty() =~= view_events(events@));
        events
    }

    /// The alternative clauses of a predicate: none are known to the
    /// machine.
    pub fn get_alternatives(&self, predicate: &str) -> (alternatives: Option<Vec<Term>>)
        ensures
            alternatives is None,
    {
        None
    }
}

} // verus!
