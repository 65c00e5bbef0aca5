//! Running tokens: the rules by which a definition executes a token stream,
//! calling the declared instructions.

use vstd::prelude::*;

use crate::asm_definition::{tokens_view, ASMDefinition, ASTNode, DefView, TokView};
use crate::asm_instruction::{invocation, ASMInstruction, Instruction};
use crate::asm_value::{reg_value, ASMValue, ValueView};

verus! {

/// The report of an argument that comes before any instruction.
pub open spec fn value_without_instruction_text() -> Seq<char> {
    "ASTValue encountered with no instruction present"@
}

/// The report of an instruction that comes before the previous one has ended.
pub open spec fn nested_instruction_text() -> Seq<char> {
    "ASTInstruction encountered when another instruction is called"@
}

/// The report of an instruction that is not declared.
pub open spec fn invalid_instruction_text() -> Seq<char> {
    "Not a valid instruction"@
}

/// The report of a register that is not declared.
pub open spec fn undefined_register_text() -> Seq<char> {
    "Register not defined in ASMDefinition"@
}

/// Running `toks` from position `pos`, with an instruction open or not, can
/// never meet a register token while no instruction is open, whatever the
/// definition is and whatever the instructions do (the interpreter would
/// repeat that token forever). Only the stops that do not depend on the
/// definition count: an argument outside an instruction and an instruction
/// inside another.
pub open spec fn run_safe_any(open: bool, toks: Seq<TokView>, pos: int) -> bool
    decreases toks.len() - pos,
{
    if pos < 0 || pos >= toks.len() {
        true
    } else {
        match toks[pos] {
            TokView::Value(_) => !open || run_safe_any(open, toks, pos + 1),
            TokView::Instruction(_) => open || run_safe_any(true, toks, pos + 1),
            TokView::Register(_) => open && run_safe_any(open, toks, pos + 1),
            TokView::ExprEnd => run_safe_any(false, toks, pos + 1),
        }
    }
}

/// Running `toks` from position `pos` on `d`, with an instruction open or
/// not, can never meet a register token while no instruction is open,
/// whatever the instructions it calls do: up to the first call the run is
/// followed exactly (it may stop before), after it [`run_safe_any`] decides.
pub open spec fn run_safe<I>(d: DefView<I>, open: bool, toks: Seq<TokView>, pos: int) -> bool
    decreases toks.len() - pos,
{
    if pos < 0 || pos >= toks.len() || d.halted {
        true
    } else {
        match toks[pos] {
            TokView::Value(_) => !open || run_safe(d, open, toks, pos + 1),
            TokView::Instruction(name) => open || !d.instructions.contains_key(name) || run_safe(
                d,
                true,
                toks,
                pos + 1,
            ),
            TokView::Register(name) => open && (!d.registers.contains_key(name) || run_safe(
                d,
                open,
                toks,
                pos + 1,
            )),
            TokView::ExprEnd => if open {
                run_safe_any(false, toks, pos + 1)
            } else {
                run_safe(d, false, toks, pos + 1)
            },
        }
    }
}

/// A run that cannot meet a stray register whatever the definition is cannot
/// meet one on any given definition.
pub proof fn lemma_run_safe_any<I>(d: DefView<I>, open: bool, toks: Seq<TokView>, pos: int)
    requires
        run_safe_any(open, toks, pos),
    ensures
        run_safe(d, open, toks, pos),
    decreases toks.len() - pos,
{
    if 0 <= pos < toks.len() && !d.halted {
        match toks[pos] {
            TokView::Value(_) => if open {
                lemma_run_safe_any(d, open, toks, pos + 1);
            },
            TokView::Instruction(_) => if !open {
                lemma_run_safe_any(d, true, toks, pos + 1);
            },
            TokView::Register(_) => lemma_run_safe_any(d, open, toks, pos + 1),
            TokView::ExprEnd => if !open {
                lemma_run_safe_any(d, false, toks, pos + 1);
            },
        }
    }
}

/// The report of a register that comes before any instruction (the run then
/// meets the same token again).
pub open spec fn register_without_instruction_text() -> Seq<char> {
    "Register reference encountered with no instruction present"@
}

/// Where a run stands between two tokens: the instruction opened last, if it
/// has not been called yet, and the arguments collected for it.
pub struct RunState<I> {
    pending: Option<ASMInstruction<I>>,
    args: Vec<ASMValue>,
}

/// The mathematical content of a [`RunState`].
pub struct RunStateView<I> {
    pub pending: Option<I>,
    pub args: Seq<ValueView>,
}

/// The views of a list of values.
pub open spec fn values_view(v: Seq<ASMValue>) -> Seq<ValueView> {
    v.map_values(|a: ASMValue| a@)
}

impl<I> View for RunState<I> {
    type V = RunStateView<I>;

    closed spec fn view(&self) -> RunStateView<I> {
        RunStateView {
            pending: match self.pending {
                Some(f) => Some(f@),
                None => None,
            },
            args: values_view(self.args@),
        }
    }
}

impl<I: Instruction> RunState<I> {
    /// The state before the first token: no instruction open, no arguments.
    pub fn new() -> (r: Self)
        ensures
            r@ == (RunStateView::<I> { pending: None, args: Seq::empty() }),
    {
        let r = RunState { pending: None, args: Vec::new() };
        assert(values_view(r.args@) == Seq::<ValueView>::empty());
        r
    }
}

/// What a run does after a token.
pub enum StepAction<I> {
    /// Go on with the next token.
    Continue,
    /// The run is over.
    Stop,
    /// Meet the same token again.
    Repeat,
    /// Call the instruction with the arguments, then go on with the next token.
    Call(ASMInstruction<I>, Vec<ASMValue>),
}

/// The mathematical content of a [`StepAction`].
pub enum ActionView<I> {
    Continue,
    Stop,
    Repeat,
    Call(I, Seq<ValueView>),
}

impl<I> View for StepAction<I> {
    type V = ActionView<I>;

    open spec fn view(&self) -> ActionView<I> {
        match self {
            StepAction::Continue => ActionView::Continue,
            StepAction::Stop => ActionView::Stop,
            StepAction::Repeat => ActionView::Repeat,
            StepAction::Call(f, a) => ActionView::Call(f@, values_view(a@)),
        }
    }
}

/// One step of a run: the definition, the run state and the action after the
/// token `tok`, from the definition `d` and the run state `st`.
pub open spec fn step_spec<I>(d: DefView<I>, st: RunStateView<I>, tok: TokView) -> (
    DefView<I>,
    RunStateView<I>,
    ActionView<I>,
) {
    if d.halted {
        (d, st, ActionView::Stop)
    } else {
        match tok {
            TokView::Value(v) => match st.pending {
                None => (d.raised(value_without_instruction_text(), true), st, ActionView::Stop),
                Some(_) => (
                    d,
                    RunStateView { pending: st.pending, args: st.args.push(v) },
                    ActionView::Continue,
                ),
            },
            TokView::Instruction(name) => if st.pending is Some {
                (d.raised(nested_instruction_text(), true), st, ActionView::Stop)
            } else if d.instructions.contains_key(name) {
                (
                    d,
                    RunStateView { pending: Some(d.instructions[name]), args: st.args },
                    ActionView::Continue,
                )
            } else {
                (d.raised(invalid_instruction_text(), true), st, ActionView::Stop)
            },
            TokView::Register(name) => if st.pending is None {
                (d.raised(register_without_instruction_text(), false), st, ActionView::Repeat)
            } else if d.registers.contains_key(name) {
                (
                    d,
                    RunStateView {
                        pending: st.pending,
                        args: st.args.push(reg_value(name, true)),
                    },
                    ActionView::Continue,
                )
            } else {
                (d.raised(undefined_register_text(), true), st, ActionView::Stop)
            },
            TokView::ExprEnd => match st.pending {
                Some(f) => (
                    d,
                    RunStateView { pending: None, args: Seq::empty() },
                    ActionView::Call(f, st.args),
                ),
                None => (d, st, ActionView::Continue),
            },
        }
    }
}

/// The definition that running `toks` from position `pos` ends in, starting
/// from the definition `d` and the run state `st`, when the instructions that
/// the run calls leave the definitions `outcomes`, one after another; `None`
/// when one of `outcomes` is not an effect of its instruction.
///
/// Between two instruction calls the definition changes exactly as
/// [`step_spec`] says. Each call that a step asks for is made with the
/// instruction and the arguments of that step, on the definition as the step
/// left it, and the outcome must be an invocation of that instruction
/// ([`Instruction::effect`]); the run goes on from that outcome. A step that
/// meets the same token again is never taken by a run that meets
/// [`ASMDefinition::run`]'s precondition.
pub open spec fn run_spec<I: Instruction>(
    d: DefView<I>,
    st: RunStateView<I>,
    toks: Seq<TokView>,
    pos: int,
    outcomes: Seq<DefView<I>>,
) -> Option<DefView<I>>
    decreases toks.len() - pos,
{
    if pos < 0 || pos >= toks.len() {
        Some(d)
    } else {
        let (d2, st2, act) = step_spec(d, st, toks[pos]);
        match act {
            ActionView::Continue => run_spec(d2, st2, toks, pos + 1, outcomes),
            ActionView::Call(f, args) => if outcomes.len() > 0 && f.effect(
                invocation(d2, args, outcomes.first()),
            ) {
                run_spec(outcomes.first(), st2, toks, pos + 1, outcomes.drop_first())
            } else {
                None
            },
            _ => Some(d2),
        }
    }
}

/// Running `toks` from position `pos`, from the definition `d` and the run
/// state `st`, never takes a step that meets the same token again (which the
/// interpreter would do forever), when the instructions that the run calls
/// leave the definitions `outcomes`, one after another; outcomes that are not
/// effects of their instructions end the question.
pub open spec fn run_ends<I: Instruction>(
    d: DefView<I>,
    st: RunStateView<I>,
    toks: Seq<TokView>,
    pos: int,
    outcomes: Seq<DefView<I>>,
) -> bool
    decreases toks.len() - pos,
{
    if pos < 0 || pos >= toks.len() {
        true
    } else {
        let (d2, st2, act) = step_spec(d, st, toks[pos]);
        match act {
            ActionView::Continue => run_ends(d2, st2, toks, pos + 1, outcomes),
            ActionView::Call(f, args) => if outcomes.len() > 0 && f.effect(
                invocation(d2, args, outcomes.first()),
            ) {
                run_ends(outcomes.first(), st2, toks, pos + 1, outcomes.drop_first())
            } else {
                true
            },
            ActionView::Repeat => false,
            ActionView::Stop => true,
        }
    }
}

/// Running `toks` on `d` from the start ends, whatever definitions the
/// called instructions leave within their effects.
pub open spec fn run_never_repeats<I: Instruction>(d: DefView<I>, toks: Seq<TokView>) -> bool {
    forall|outcomes: Seq<DefView<I>>| #[trigger] run_ends(d, fresh_run(), toks, 0, outcomes)
}

/// A run that cannot meet a stray register (see [`run_safe`]) ends,
/// whatever the instructions leave.
pub proof fn lemma_run_safe_ends<I: Instruction>(
    d: DefView<I>,
    st: RunStateView<I>,
    toks: Seq<TokView>,
    pos: int,
    outcomes: Seq<DefView<I>>,
)
    requires
        run_safe(d, st.pending is Some, toks, pos),
    ensures
        run_ends(d, st, toks, pos, outcomes),
    decreases toks.len() - pos,
{
    if 0 <= pos < toks.len() && !d.halted {
        let (d2, st2, act) = step_spec(d, st, toks[pos]);
        match act {
            ActionView::Continue => lemma_run_safe_ends(d2, st2, toks, pos + 1, outcomes),
            ActionView::Call(f, args) => if outcomes.len() > 0 {
                lemma_run_safe_any(outcomes.first(), false, toks, pos + 1);
                lemma_run_safe_ends(outcomes.first(), st2, toks, pos + 1, outcomes.drop_first());
            },
            _ => {},
        }
    }
}

/// The run state of a fresh run.
pub open spec fn fresh_run<I>() -> RunStateView<I> {
    RunStateView { pending: None, args: Seq::empty() }
}

impl<I: Instruction> ASMDefinition<I> {
    /// Handles one token: an instruction token opens an invocation, value and
    /// register tokens add arguments to it, and the end-of-expression token
    /// asks for the instruction to be called with them. An argument outside
    /// an instruction, an instruction inside another, an undeclared
    /// instruction or an undeclared register raises a halting exception and
    /// stops the run; a register outside an instruction raises an exception
    /// that does not halt, and the token is to be met again; a halted
    /// definition stops.
    pub fn step(&mut self, state: &mut RunState<I>, token: &ASTNode) -> (act: StepAction<I>)
        ensures
            (final(self)@, final(state)@, act@) == step_spec(old(self)@, old(state)@, token@),
            !old(self)@.halted && old(state)@.pending is Some ==> (token matches ASTNode::ASTValue(v)
                ==> final(state)@.args == old(state)@.args.push(v@) && act is Continue),
    {
        if self.is_halted() {
            return StepAction::Stop;
        }
        match token {
            ASTNode::ASTValue(value) => {
                if state.pending.is_none() {
                    self.raise_exception("ASTValue encountered with no instruction present", true);
                    return StepAction::Stop;
                }
                let ghost before = state.args@;
                state.args.push(value.clone());
                assert(state.args@ == before.push(*value));
                assert(values_view(state.args@) == values_view(before).push(value@));
                StepAction::Continue
            },
            ASTNode::ASTInstruction(instruction) => {
                if state.pending.is_some() {
                    self.raise_exception(
                        "ASTInstruction encountered when another instruction is called",
                        true,
                    );
                    return StepAction::Stop;
                }
                match self.get_instruction(instruction.as_str()) {
                    Some(reference) => {
                        state.pending = Some(reference);
                        StepAction::Continue
                    },
                    None => {
                        self.raise_exception("Not a valid instruction", true);
                        StepAction::Stop
                    },
                }
            },
            ASTNode::ASTRegister(reference) => {
                if state.pending.is_none() {
                    self.raise_exception(
                        "Register reference encountered with no instruction present",
                        false,
                    );
                    return StepAction::Repeat;
                }
                if !self.has_register(reference.as_str()) {
                    self.raise_exception("Register not defined in ASMDefinition", true);
                    return StepAction::Stop;
                }
                let register_ref = ASMValue::new_reg(reference.clone(), true);
                let ghost before = state.args@;
                state.args.push(register_ref);
                assert(state.args@ == before.push(register_ref));
                assert(values_view(state.args@) == values_view(before).push(
                    reg_value(reference@, true),
                ));
                StepAction::Continue
            },
            ASTNode::ASTExprEnd => {
                match state.pending {
                    Some(instruction) => {
                        let mut args: Vec<ASMValue> = Vec::new();
                        std::mem::swap(&mut args, &mut state.args);
                        state.pending = None;
                        assert(values_view(state.args@) == Seq::<ValueView>::empty());
                        StepAction::Call(instruction, args)
                    },
                    None => StepAction::Continue,
                }
            },
        }
    }

    /// Runs a token stream, one [`step`](ASMDefinition::step) per token,
    /// calling each instruction that a step asks for, until a step stops the
    /// run or the tokens run out.
    pub fn run(&mut self, tokens: Vec<ASTNode>)
        requires
            run_never_repeats(old(self)@, tokens_view(tokens@)),
        ensures
            exists|outcomes: Seq<DefView<I>>|
                run_spec(old(self)@, fresh_run(), tokens_view(tokens@), 0, outcomes)
                    == Some(final(self)@),
    {
        let ghost toks = tokens_view(tokens@);
        let ghost mut done: Seq<DefView<I>> = Seq::empty();
        let mut state: RunState<I> = RunState::new();
        let mut current_position: usize = 0;
        assert forall|rest: Seq<DefView<I>>|
            #[trigger] run_spec(self@, state@, toks, 0, rest) == run_spec(
                old(self)@,
                fresh_run(),
                toks,
                0,
                done + rest,
            ) by {
            assert(done + rest == rest);
        }
        assert forall|rest: Seq<DefView<I>>|
            #[trigger] run_ends(self@, state@, toks, 0, rest) == run_ends(
                old(self)@,
                fresh_run(),
                toks,
                0,
                done + rest,
            ) by {
            assert(done + rest == rest);
        }
        while current_position < tokens.len()
            invariant
                toks == tokens_view(tokens@),
                current_position <= tokens@.len(),
                run_never_repeats(old(self)@, toks),
                forall|rest: Seq<DefView<I>>|
                    #[trigger] run_ends(self@, state@, toks, current_position as int, rest)
                        == run_ends(old(self)@, fresh_run(), toks, 0, done + rest),
                forall|rest: Seq<DefView<I>>|
                    #[trigger] run_spec(self@, state@, toks, current_position as int, rest)
                        == run_spec(old(self)@, fresh_run(), toks, 0, done + rest),
            decreases tokens@.len() - current_position,
        {
            let ghost cur = self@;
            let ghost st = state@;
            let ghost pos = current_position as int;
            assert(toks[pos] == tokens@[pos]@);
            let action = self.step(&mut state, &tokens[current_position]);
            match action {
                StepAction::Continue => {
                    assert forall|rest: Seq<DefView<I>>|
                        #[trigger] run_spec(self@, state@, toks, pos + 1, rest) == run_spec(
                            old(self)@,
                            fresh_run(),
                            toks,
                            0,
                            done + rest,
                        ) by {
                        assert(run_spec(cur, st, toks, pos, rest) == run_spec(
                            self@,
                            state@,
                            toks,
                            pos + 1,
                            rest,
                        ));
                    }
                    assert forall|rest: Seq<DefView<I>>|
                        #[trigger] run_ends(self@, state@, toks, pos + 1, rest) == run_ends(
                            old(self)@,
                            fresh_run(),
                            toks,
                            0,
                            done + rest,
                        ) by {
                        assert(run_ends(cur, st, toks, pos, rest) == run_ends(
                            self@,
                            state@,
                            toks,
                            pos + 1,
                            rest,
                        ));
                    }
                },
                StepAction::Stop => {
                    assert(run_spec(cur, st, toks, pos, Seq::empty()) == Some(self@));
                    assert(done + Seq::<DefView<I>>::empty() == done);
                    return;
                },
                StepAction::Repeat => {
                    assert(!run_ends(cur, st, toks, pos, Seq::empty()));
                    assert(run_ends(old(self)@, fresh_run(), toks, 0, done + Seq::empty()));
                    return;
                },
                StepAction::Call(instruction, args) => {
                    instruction.call(self, args);
                    let ghost after = self@;
                    assert forall|rest: Seq<DefView<I>>|
                        #[trigger] run_ends(self@, state@, toks, pos + 1, rest) == run_ends(
                            old(self)@,
                            fresh_run(),
                            toks,
                            0,
                            done.push(after) + rest,
                        ) by {
                        let with_after = seq![after] + rest;
                        assert(with_after.first() == after);
                        assert(with_after.drop_first() == rest);
                        assert(done + with_after == done.push(after) + rest);
                        assert(run_ends(cur, st, toks, pos, with_after) == run_ends(
                            after,
                            state@,
                            toks,
                            pos + 1,
                            rest,
                        ));
                    }
                    assert forall|rest: Seq<DefView<I>>|
                        #[trigger] run_spec(self@, state@, toks, pos + 1, rest) == run_spec(
                            old(self)@,
                            fresh_run(),
                            toks,
                            0,
                            done.push(after) + rest,
                        ) by {
                        let with_after = seq![after] + rest;
                        assert(with_after.first() == after);
                        assert(with_after.drop_first() == rest);
                        assert(done + with_after == done.push(after) + rest);
                        assert(run_spec(cur, st, toks, pos, with_after) == run_spec(
                            after,
                            state@,
                            toks,
                            pos + 1,
                            rest,
                        ));
                    }
                    proof {
                        done = done.push(after);
                    }
                },
            }
            current_position += 1;
        }
        assert(run_spec(self@, state@, toks, current_position as int, Seq::empty()) == Some(
            self@,
        ));
        assert(done + Seq::<DefView<I>>::empty() == done);
    }
}

impl<I: Instruction> ASMDefinition<I> {
    /// Whether running `tokens` on this definition ends whatever the
    /// instructions do (see [`run_safe`]).
    pub fn run_terminates(&self, tokens: &Vec<ASTNode>) -> (r: bool)
        ensures
            r == run_safe(self@, false, tokens_view(tokens@), 0),
    {
        let ghost toks = tokens_view(tokens@);
        let mut open = false;
        let mut after_call = false;
        let n = tokens.len();
        for p in 0..n
            invariant
                n == tokens@.len(),
                toks == tokens_view(tokens@),
                (if after_call {
                    run_safe_any(open, toks, p as int)
                } else {
                    run_safe(self@, open, toks, p as int)
                }) == run_safe(self@, false, toks, 0),
        {
            assert(toks[p as int] == tokens@[p as int]@);
            if !after_call && self.is_halted() {
                return true;
            }
            match &tokens[p] {
                ASTNode::ASTValue(_) => {
                    if !open {
                        return true;
                    }
                },
                ASTNode::ASTInstruction(name) => {
                    if open {
                        return true;
                    }
                    if !after_call && !self.has_instruction(name.as_str()) {
                        return true;
                    }
                    open = true;
                },
                ASTNode::ASTRegister(name) => {
                    if !open {
                        return false;
                    }
                    if !after_call && !self.has_register(name.as_str()) {
                        return true;
                    }
                },
                ASTNode::ASTExprEnd => {
                    if open {
                        after_call = true;
                    }
                    open = false;
                },
            }
        }
        true
    }
}

/// A halted definition runs nothing: whatever the tokens, it stays as it is.
pub proof fn lemma_halted_runs_nothing<I: Instruction>(
    d: DefView<I>,
    st: RunStateView<I>,
    toks: Seq<TokView>,
    pos: int,
    outcomes: Seq<DefView<I>>,
)
    requires
        d.halted,
    ensures
        run_spec(d, st, toks, pos, outcomes) == Some(d),
{
}

/// An instruction token that names no declared instruction is never
/// executed: it raises a halting exception and the run ends there.
pub proof fn lemma_undeclared_instruction_halts<I: Instruction>(
    d: DefView<I>,
    toks: Seq<TokView>,
    pos: int,
    outcomes: Seq<DefView<I>>,
)
    requires
        !d.halted,
        0 <= pos < toks.len(),
        toks[pos] matches TokView::Instruction(name) && !d.instructions.contains_key(name),
    ensures
        run_spec(d, fresh_run(), toks, pos, outcomes) == Some(
            d.raised(invalid_instruction_text(), true),
        ),
{
}

/// A register token that names no declared register is never read: inside
/// an open instruction it raises a halting exception and the run ends there.
pub proof fn lemma_undeclared_register_halts<I: Instruction>(
    d: DefView<I>,
    st: RunStateView<I>,
    toks: Seq<TokView>,
    pos: int,
    outcomes: Seq<DefView<I>>,
)
    requires
        !d.halted,
        st.pending is Some,
        0 <= pos < toks.len(),
        toks[pos] matches TokView::Register(name) && !d.registers.contains_key(name),
    ensures
        run_spec(d, st, toks, pos, outcomes) == Some(d.raised(undefined_register_text(), true)),
{
}

/// The tokens of one invocation: the instruction `name`, a value token for
/// each of `vals`, and the end of the expression.
pub open spec fn invocation_tokens(name: Seq<char>, vals: Seq<ValueView>) -> Seq<TokView> {
    seq![TokView::Instruction(name)] + vals.map_values(|v: ValueView| TokView::Value(v))
        + seq![TokView::ExprEnd]
}

/// A value token met while an instruction is open is added, as it is, after
/// the arguments collected so far, however many there are; nothing else
/// changes.
pub proof fn lemma_value_is_appended<I>(d: DefView<I>, st: RunStateView<I>, v: ValueView)
    requires
        !d.halted,
        st.pending is Some,
    ensures
        step_spec(d, st, TokView::Value(v)).0 == d,
        step_spec(d, st, TokView::Value(v)).1.pending == st.pending,
        step_spec(d, st, TokView::Value(v)).1.args.len() == st.args.len() + 1,
        step_spec(d, st, TokView::Value(v)).1.args.last() == v,
        step_spec(d, st, TokView::Value(v)).1.args.drop_last() == st.args,
        step_spec(d, st, TokView::Value(v)).2 == ActionView::<I>::Continue,
{
    assert(st.args.push(v).drop_last() =~= st.args);
}

proof fn lemma_values_collected<I: Instruction>(
    d: DefView<I>,
    f: I,
    name: Seq<char>,
    vals: Seq<ValueView>,
    k: int,
    outcomes: Seq<DefView<I>>,
)
    requires
        !d.halted,
        0 <= k <= vals.len(),
    ensures
        run_spec(
            d,
            RunStateView { pending: Some(f), args: vals.take(k) },
            invocation_tokens(name, vals),
            k + 1,
            outcomes,
        ) == run_spec(
            d,
            RunStateView { pending: Some(f), args: vals },
            invocation_tokens(name, vals),
            vals.len() + 1int,
            outcomes,
        ),
    decreases vals.len() - k,
{
    let toks = invocation_tokens(name, vals);
    if k < vals.len() {
        assert(toks[k + 1] == TokView::Value(vals[k]));
        assert(vals.take(k).push(vals[k]) =~= vals.take(k + 1));
        lemma_values_collected(d, f, name, vals, k + 1, outcomes);
    } else {
        assert(vals.take(k) =~= vals);
    }
}

/// Running one invocation of a declared instruction calls that instruction
/// exactly once, on the definition as it was, with exactly the values of the
/// invocation as arguments, in their order: the run ends in an outcome `o`
/// precisely when `o` is an effect of that call.
pub proof fn lemma_invocation_passes_its_values<I: Instruction>(
    d: DefView<I>,
    name: Seq<char>,
    vals: Seq<ValueView>,
    o: DefView<I>,
)
    requires
        !d.halted,
        d.instructions.contains_key(name),
    ensures
        run_spec(d, fresh_run(), invocation_tokens(name, vals), 0, seq![o]) == (if d.instructions[
            name
        ].effect(invocation(d, vals, o)) {
            Some(o)
        } else {
            None
        }),
{
    let toks = invocation_tokens(name, vals);
    let f = d.instructions[name];
    assert(toks[0] == TokView::Instruction(name));
    assert(vals.take(0) =~= Seq::<ValueView>::empty());
    lemma_values_collected(d, f, name, vals, 0, seq![o]);
    let n = vals.len() as int;
    assert(toks.len() == n + 2);
    assert(toks[n + 1] == TokView::ExprEnd);
    let start = RunStateView::<I> { pending: Some(f), args: vals.take(0) };
    assert(step_spec(d, fresh_run(), toks[0]) == (d, start, ActionView::<I>::Continue));
    assert(run_spec(d, fresh_run(), toks, 0, seq![o]) == run_spec(d, start, toks, 1, seq![o]));
    let full = RunStateView::<I> { pending: Some(f), args: vals };
    let after = RunStateView::<I> { pending: None, args: Seq::empty() };
    assert(step_spec(d, full, toks[n + 1]) == (d, after, ActionView::Call(f, vals)));
    assert(seq![o].drop_first() =~= Seq::<DefView<I>>::empty());
    assert(seq![o].first() == o);
    assert(run_spec(o, after, toks, n + 2, Seq::<DefView<I>>::empty()) == Some(o));
}

/// Whether an instruction is open just before position `i` of `toks`: the
/// last instruction or end-of-expression token before `i` is an instruction.
pub open spec fn opened_before(toks: Seq<TokView>, i: int) -> bool
    decreases i,
{
    if i <= 0 || i > toks.len() {
        false
    } else {
        match toks[i - 1] {
            TokView::Instruction(_) => true,
            TokView::ExprEnd => false,
            _ => opened_before(toks, i - 1),
        }
    }
}

/// Every register token of `toks` comes while an instruction is open.
pub open spec fn no_stray_register(toks: Seq<TokView>) -> bool {
    forall|i: int| 0 <= i < toks.len() && #[trigger] toks[i] is Register ==> opened_before(toks, i)
}

/// A token stream whose register tokens all come while an instruction is
/// open (from position `pos` on) meets no register outside an instruction,
/// whatever the definition and whatever the instructions do.
pub proof fn lemma_no_stray_register_is_safe<I>(
    d: DefView<I>,
    open: bool,
    toks: Seq<TokView>,
    pos: int,
)
    requires
        0 <= pos <= toks.len(),
        open == opened_before(toks, pos),
        forall|i: int| pos <= i < toks.len() && #[trigger] toks[i] is Register ==> opened_before(toks, i),
    ensures
        run_safe_any(open, toks, pos),
        run_safe(d, open, toks, pos),
    decreases toks.len() - pos,
{
    if pos < toks.len() {
        assert(opened_before(toks, pos + 1) == match toks[pos] {
            TokView::Instruction(_) => true,
            TokView::ExprEnd => false,
            _ => opened_before(toks, pos),
        });
        match toks[pos] {
            TokView::Instruction(_) => {
                lemma_no_stray_register_is_safe(d, true, toks, pos + 1);
            },
            TokView::ExprEnd => {
                lemma_no_stray_register_is_safe(d, false, toks, pos + 1);
            },
            _ => {
                lemma_no_stray_register_is_safe(d, open, toks, pos + 1);
            },
        }
    }
}

/// A token stream with no stray register passes the termination check.
pub proof fn lemma_no_stray_register_accepted<I>(d: DefView<I>, toks: Seq<TokView>)
    requires
        no_stray_register(toks),
    ensures
        run_safe(d, false, toks, 0),
        run_safe_any(false, toks, 0),
{
    lemma_no_stray_register_is_safe(d, false, toks, 0);
}

} // verus!
