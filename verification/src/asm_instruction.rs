//! Instructions: the behaviour that the embedding program attaches to an
//! instruction name.

use vstd::prelude::*;

use crate::asm_definition::{ASMDefinition, DefView};
use crate::asm_value::{ASMValue, ValueView};

verus! {

/// One call of an instruction: the definition it started from, the
/// arguments it was given, and the definition it left.
pub struct Invocation<I> {
    pub before: DefView<I>,
    pub args: Seq<ValueView>,
    pub after: DefView<I>,
}

/// The invocation that starts from `before` with `args` and leaves `after`.
pub open spec fn invocation<I>(before: DefView<I>, args: Seq<ValueView>, after: DefView<I>) -> Invocation<I> {
    Invocation { before, args, after }
}

/// What an instruction does when a program invokes it: the embedding program
/// implements this for its own instruction type; the interpreter hands over
/// the definition it runs on and the instruction's arguments.
///
/// `effect` describes the instruction's behaviour as the set of invocations
/// it can make, and `execute` makes one of them. An implementation that is
/// not verified is believed on this; one that describes its behaviour as
/// every invocation (`true`) claims nothing beyond having been called with
/// that definition and those arguments.
pub trait Instruction: Sized + Copy {
    spec fn effect(&self, inv: Invocation<Self>) -> bool;

    fn execute(&self, state: &mut ASMDefinition<Self>, args: Vec<ASMValue>)
        ensures
            self.effect(invocation(old(state)@, args@.map_values(|a: ASMValue| a@), final(state)@)),
    ;
}

/// An instruction as the definition stores it.
#[derive(Copy)]
pub struct ASMInstruction<I> {
    function: I,
}

impl<I: Copy> Clone for ASMInstruction<I> {
    fn clone(&self) -> (r: Self)
        ensures
            r == *self,
    {
        *self
    }
}

impl<I> View for ASMInstruction<I> {
    type V = I;

    closed spec fn view(&self) -> I {
        self.function
    }
}

impl<I: Instruction> ASMInstruction<I> {
    /// Wraps the behaviour `function`.
    pub fn new(function: I) -> (r: Self)
        ensures
            r@ == function,
    {
        ASMInstruction { function }
    }

    /// Executes the instruction on `state` with `args`: the stored behaviour
    /// makes one of its invocations from `state` with exactly these arguments.
    pub fn call(&self, state: &mut ASMDefinition<I>, args: Vec<ASMValue>)
        ensures
            self@.effect(invocation(old(state)@, args@.map_values(|a: ASMValue| a@), final(state)@)),
    {
        self.function.execute(state, args);
    }

    /// Executes the instruction on `state` with a copy of `args`, as
    /// [`call`](ASMInstruction::call) does with the same arguments.
    pub fn call_with_slice(&self, state: &mut ASMDefinition<I>, args: &[ASMValue])
        ensures
            self@.effect(invocation(old(state)@, args@.map_values(|a: ASMValue| a@), final(state)@)),
    {
        let mut owned: Vec<ASMValue> = Vec::new();
        let n = args.len();
        for k in 0..n
            invariant
                n == args@.len(),
                owned@ == args@.take(k as int),
        {
            owned.push(args[k].clone());
            assert(args@.take(k + 1) == args@.take(k as int).push(args@[k as int]));
        }
        assert(args@.take(n as int) == args@);
        self.call(state, owned);
    }
}

} // verus!
