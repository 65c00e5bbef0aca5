//! Definitions: the registers and instructions that the embedding program
//! declared, and the state of execution.

use vstd::prelude::*;
use vstd::hash_map::StringHashMap;

use crate::asm_instruction::{ASMInstruction, Instruction};
use crate::asm_value::{empty_value, holder_text, ASMValue, ValueView};
use crate::text::{chars_to_string, string_chars};

verus! {

/// One token of a scanned program.
pub enum ASTNode {
    ASTValue(ASMValue),
    ASTInstruction(String),
    ASTRegister(String),
    ASTExprEnd,
}

impl Clone for ASTNode {
    fn clone(&self) -> (r: Self)
        ensures
            r == *self,
    {
        match self {
            ASTNode::ASTValue(v) => ASTNode::ASTValue(v.clone()),
            ASTNode::ASTInstruction(s) => ASTNode::ASTInstruction(s.clone()),
            ASTNode::ASTRegister(s) => ASTNode::ASTRegister(s.clone()),
            ASTNode::ASTExprEnd => ASTNode::ASTExprEnd,
        }
    }
}

/// The mathematical content of an [`ASTNode`].
pub enum TokView {
    Value(ValueView),
    Instruction(Seq<char>),
    Register(Seq<char>),
    ExprEnd,
}

impl View for ASTNode {
    type V = TokView;

    open spec fn view(&self) -> TokView {
        match self {
            ASTNode::ASTValue(v) => TokView::Value(v@),
            ASTNode::ASTInstruction(s) => TokView::Instruction(s@),
            ASTNode::ASTRegister(s) => TokView::Register(s@),
            ASTNode::ASTExprEnd => TokView::ExprEnd,
        }
    }
}

/// The views of a token sequence.
pub open spec fn tokens_view(tokens: Seq<ASTNode>) -> Seq<TokView> {
    tokens.map_values(|t: ASTNode| t@)
}

/// The observable state of a definition.
pub struct DefView<I> {
    /// Each declared register's name and current value.
    pub registers: Map<Seq<char>, ValueView>,
    /// Each declared instruction's name and behaviour.
    pub instructions: Map<Seq<char>, I>,
    /// How many exceptions were raised (it stops growing at `u64::MAX`).
    pub errors: u64,
    /// Whether an exception stopped execution.
    pub halted: bool,
    /// Diagnostic lines not yet handed to the embedding program, oldest first.
    pub output: Seq<Seq<char>>,
}

impl<I> DefView<I> {
    /// The state after raising an exception with `msg`, stopping execution when `halt` holds.
    pub open spec fn raised(self, msg: Seq<char>, halt: bool) -> DefView<I> {
        DefView {
            registers: self.registers,
            instructions: self.instructions,
            errors: if self.errors < u64::MAX { (self.errors + 1) as u64 } else { self.errors },
            halted: self.halted || halt,
            output: self.output.push(msg),
        }
    }

    /// The state after raising a halting exception for each of `msgs`, in order.
    pub open spec fn raised_all(self, msgs: Seq<Seq<char>>) -> DefView<I>
        decreases msgs.len(),
    {
        if msgs.len() == 0 {
            self
        } else {
            self.raised_all(msgs.drop_last()).raised(msgs.last(), true)
        }
    }

    /// The state with one more diagnostic line and nothing else changed.
    pub open spec fn reported(self, msg: Seq<char>) -> DefView<I> {
        DefView { output: self.output.push(msg), ..self }
    }
}

/// The names in `names` are distinct and are exactly the keys of `m`.
pub open spec fn names_list<V>(names: Seq<String>, m: Map<Seq<char>, V>) -> bool {
    &&& forall|i: int| 0 <= i < names.len() ==> m.dom().contains(#[trigger] names[i]@)
    &&& forall|k: Seq<char>| #[trigger] m.dom().contains(k) ==> exists|i: int|
        0 <= i < names.len() && #[trigger] names[i]@ == k
    &&& forall|i: int, j: int|
        0 <= i < names.len() && 0 <= j < names.len() && i != j ==> #[trigger] names[i]@
            != #[trigger] names[j]@
}

/// Inserting a key keeps a names list exact, with the key appended when it is new.
proof fn lemma_names_list_insert<V>(names: Seq<String>, m: Map<Seq<char>, V>, k: String, v: V)
    requires
        names_list(names, m),
    ensures
        m.dom().contains(k@) ==> names_list(names, m.insert(k@, v)),
        !m.dom().contains(k@) ==> names_list(names.push(k), m.insert(k@, v)),
{
    if m.dom().contains(k@) {
        assert forall|key: Seq<char>| #[trigger] m.insert(k@, v).dom().contains(key) implies exists|i: int|
            0 <= i < names.len() && #[trigger] names[i]@ == key by {
            assert(m.dom().contains(key));
        }
    } else {
        let n2 = names.push(k);
        assert forall|i: int| 0 <= i < n2.len() implies m.insert(k@, v).dom().contains(
            #[trigger] n2[i]@,
        ) by {
            if i < names.len() {
                assert(n2[i] == names[i]);
            }
        }
        assert forall|key: Seq<char>| #[trigger] m.insert(k@, v).dom().contains(key) implies exists|i: int|
            0 <= i < n2.len() && #[trigger] n2[i]@ == key by {
            if key == k@ {
                assert(n2[names.len() as int]@ == key);
            } else {
                assert(m.dom().contains(key));
                let i = choose|i: int| 0 <= i < names.len() && #[trigger] names[i]@ == key;
                assert(n2[i]@ == key);
            }
        }
        assert forall|i: int, j: int|
            0 <= i < n2.len() && 0 <= j < n2.len() && i != j implies #[trigger] n2[i]@
            != #[trigger] n2[j]@ by {
            if i < names.len() && j < names.len() {
                assert(n2[i] == names[i]);
                assert(n2[j] == names[j]);
            } else if i < names.len() {
                assert(n2[i] == names[i]);
                assert(m.dom().contains(names[i]@));
            } else if j < names.len() {
                assert(n2[j] == names[j]);
                assert(m.dom().contains(names[j]@));
            }
        }
    }
}

/// A definition: the declared registers and instructions, and the state of execution.
#[verifier::reject_recursive_types(I)]
pub struct ASMDefinition<I> {
    registers: StringHashMap<ASMValue>,
    register_names: Vec<String>,
    instructions: StringHashMap<ASMInstruction<I>>,
    instruction_names: Vec<String>,
    _priority: u16,
    errors: u64,
    halted: bool,
    output: Vec<String>,
}

impl<I> View for ASMDefinition<I> {
    type V = DefView<I>;

    closed spec fn view(&self) -> DefView<I> {
        DefView {
            registers: self.registers@.map_values(|v: ASMValue| v@),
            instructions: self.instructions@.map_values(|f: ASMInstruction<I>| f@),
            errors: self.errors,
            halted: self.halted,
            output: self.output@.map_values(|s: String| s@),
        }
    }
}

impl<I> ASMDefinition<I> {
    #[verifier::type_invariant]
    closed spec fn wf(self) -> bool {
        &&& names_list(self.register_names@, self.registers@)
        &&& names_list(self.instruction_names@, self.instructions@)
    }
}

} // verus!

verus! {

impl<I: Instruction> ASMDefinition<I> {
    /// An empty definition: no registers, no instructions, no errors, not halted.
    pub fn new() -> (r: Self)
        ensures
            r@.registers == Map::<Seq<char>, ValueView>::empty(),
            r@.instructions == Map::<Seq<char>, I>::empty(),
            r@.errors == 0,
            !r@.halted,
            r@.output == Seq::<Seq<char>>::empty(),
    {
        let r = ASMDefinition {
            registers: StringHashMap::new(),
            register_names: Vec::new(),
            instructions: StringHashMap::new(),
            instruction_names: Vec::new(),
            _priority: 1,
            errors: 0,
            halted: false,
            output: Vec::new(),
        };
        assert(r.registers@.map_values(|v: ASMValue| v@) == Map::<Seq<char>, ValueView>::empty());
        assert(r.instructions@.map_values(|f: ASMInstruction<I>| f@) == Map::<Seq<char>, I>::empty());
        assert(r.output@.map_values(|s: String| s@) == Seq::<Seq<char>>::empty());
        r
    }

    /// Declares the register `reg_name`, holding the empty value; a register
    /// of that name that was declared before is reset to the empty value.
    pub fn insert_register(self, reg_name: &str) -> (r: Self)
        ensures
            r@ == (DefView {
                registers: self@.registers.insert(reg_name@, empty_value(true)),
                ..self@
            }),
    {
        proof {
            use_type_invariant(&self);
        }
        let ASMDefinition {
            mut registers,
            mut register_names,
            instructions,
            instruction_names,
            _priority,
            errors,
            halted,
            output,
        } = self;
        let name: String = reg_name.to_owned();
        let value = ASMValue::new_empty(true);
        let known = registers.contains_key(reg_name);
        proof {
            lemma_names_list_insert(register_names@, registers@, name, value);
        }
        if !known {
            register_names.push(name.clone());
        }
        registers.insert(name, value);
        let r = ASMDefinition {
            registers,
            register_names,
            instructions,
            instruction_names,
            _priority,
            errors,
            halted,
            output,
        };
        assert(r@.registers == self@.registers.insert(reg_name@, empty_value(true)));
        r
    }

    /// Declares the instruction `instruction_name` with the behaviour
    /// `closure`; one of that name that was declared before is replaced.
    pub fn insert_instruction(self, instruction_name: &str, closure: I) -> (r: Self)
        ensures
            r@ == (DefView {
                instructions: self@.instructions.insert(instruction_name@, closure),
                ..self@
            }),
    {
        proof {
            use_type_invariant(&self);
        }
        let ASMDefinition {
            registers,
            register_names,
            mut instructions,
            mut instruction_names,
            _priority,
            errors,
            halted,
            output,
        } = self;
        let name: String = instruction_name.to_owned();
        let instruction = ASMInstruction::new(closure);
        let known = instructions.contains_key(instruction_name);
        proof {
            lemma_names_list_insert(instruction_names@, instructions@, name, instruction);
        }
        if !known {
            instruction_names.push(name.clone());
        }
        instructions.insert(name, instruction);
        let r = ASMDefinition {
            registers,
            register_names,
            instructions,
            instruction_names,
            _priority,
            errors,
            halted,
            output,
        };
        assert(r@.instructions == self@.instructions.insert(instruction_name@, closure));
        r
    }

    /// Reports `error_message`, counts one more error (the count stays at
    /// `u64::MAX` once it gets there), and stops execution when
    /// `halt_execution` holds.
    pub fn raise_exception(&mut self, error_message: &str, halt_execution: bool)
        ensures
            final(self)@ == old(self)@.raised(error_message@, halt_execution),
    {
        self.report(error_message.to_owned());
        proof {
            use_type_invariant(&*self);
        }
        if halt_execution {
            self.halted = true;
        }
        if self.errors < u64::MAX {
            self.errors = self.errors + 1;
        }
    }

    /// Adds a diagnostic line.
    pub(crate) fn report(&mut self, line: String)
        ensures
            final(self)@ == old(self)@.reported(line@),
    {
        proof {
            use_type_invariant(&*self);
        }
        let ghost before = self.output@;
        let mut out: Vec<String> = Vec::new();
        std::mem::swap(&mut out, &mut self.output);
        out.push(line);
        self.output = out;
        assert(self.output@.map_values(|s: String| s@) == before.map_values(|s: String| s@).push(line@));
    }

    /// Sets the register `name` to `value`, declaring it if needed.
    pub(crate) fn write_register(&mut self, name: String, value: ASMValue)
        ensures
            final(self)@ == (DefView {
                registers: old(self)@.registers.insert(name@, value@),
                ..old(self)@
            }),
    {
        proof {
            use_type_invariant(&*self);
        }
        let known = self.registers.contains_key(name.as_str());
        proof {
            lemma_names_list_insert(self.register_names@, self.registers@, name, value);
        }
        let mut whole = ASMDefinition::new();
        std::mem::swap(self, &mut whole);
        let ASMDefinition {
            mut registers,
            mut register_names,
            instructions,
            instruction_names,
            _priority,
            errors,
            halted,
            output,
        } = whole;
        if !known {
            register_names.push(name.clone());
        }
        registers.insert(name, value);
        *self = ASMDefinition {
            registers,
            register_names,
            instructions,
            instruction_names,
            _priority,
            errors,
            halted,
            output,
        };
        assert(self@.registers == old(self)@.registers.insert(name@, value@));
    }
}

} // verus!

verus! {

/// Copies a list of names.
fn copy_names(names: &Vec<String>) -> (r: Vec<String>)
    ensures
        r@ == names@,
{
    let mut r: Vec<String> = Vec::new();
    let n = names.len();
    for k in 0..n
        invariant
            n == names@.len(),
            r@ == names@.take(k as int),
    {
        r.push(names[k].clone());
        assert(names@.take(k + 1) == names@.take(k as int).push(names@[k as int]));
    }
    assert(names@.take(n as int) == names@);
    r
}

impl<I: Instruction> ASMDefinition<I> {
    /// The current value of the register `name`, if it is declared.
    pub fn get_register(&self, name: &str) -> (r: Option<ASMValue>)
        ensures
            match r {
                Some(v) => self@.registers.contains_key(name@) && v@ == self@.registers[name@],
                None => !self@.registers.contains_key(name@),
            },
    {
        match self.registers.get(name) {
            Some(v) => Some(v.clone()),
            None => None,
        }
    }

    /// Whether the register `name` is declared.
    pub fn has_register(&self, name: &str) -> (r: bool)
        ensures
            r == self@.registers.contains_key(name@),
    {
        self.registers.contains_key(name)
    }

    /// Whether the instruction `name` is declared.
    pub fn has_instruction(&self, name: &str) -> (r: bool)
        ensures
            r == self@.instructions.contains_key(name@),
    {
        self.instructions.contains_key(name)
    }

    /// The names of the declared registers, each once.
    pub fn register_names(&self) -> (r: Vec<String>)
        ensures
            names_list(r@, self@.registers),
    {
        proof {
            use_type_invariant(self);
        }
        let r = copy_names(&self.register_names);
        assert(self.registers@.dom() == self@.registers.dom());
        r
    }

    /// The names of the declared instructions, each once.
    pub fn instruction_names(&self) -> (r: Vec<String>)
        ensures
            names_list(r@, self@.instructions),
    {
        proof {
            use_type_invariant(self);
        }
        let r = copy_names(&self.instruction_names);
        assert(self.instructions@.dom() == self@.instructions.dom());
        r
    }

    /// The instruction declared as `name`, if there is one.
    pub(crate) fn get_instruction(&self, name: &str) -> (r: Option<ASMInstruction<I>>)
        ensures
            match r {
                Some(f) => self@.instructions.contains_key(name@) && f@ == self@.instructions[name@],
                None => !self@.instructions.contains_key(name@),
            },
    {
        match self.instructions.get(name) {
            Some(f) => Some(*f),
            None => None,
        }
    }

    /// How many exceptions were raised.
    pub fn errors(&self) -> (r: u64)
        ensures
            r == self@.errors,
    {
        self.errors
    }

    /// Whether execution was stopped by an exception.
    pub fn is_halted(&self) -> (r: bool)
        ensures
            r == self@.halted,
    {
        self.halted
    }

    /// Hands over the pending diagnostic lines, oldest first, and forgets them.
    pub fn take_output(&mut self) -> (r: Vec<String>)
        ensures
            r@.map_values(|s: String| s@) == old(self)@.output,
            final(self)@ == (DefView { output: Seq::<Seq<char>>::empty(), ..old(self)@ }),
    {
        proof {
            use_type_invariant(&*self);
        }
        let mut out: Vec<String> = Vec::new();
        std::mem::swap(&mut out, &mut self.output);
        assert(self.output@.map_values(|s: String| s@) == Seq::<Seq<char>>::empty());
        out
    }
}

} // verus!

verus! {

/// Raising the exceptions of `a + b` is raising those of `a`, then those of `b`.
pub proof fn lemma_raised_all_concat<I>(d: DefView<I>, a: Seq<Seq<char>>, b: Seq<Seq<char>>)
    ensures
        d.raised_all(a + b) == d.raised_all(a).raised_all(b),
    decreases b.len(),
{
    if b.len() == 0 {
        assert(a + b == a);
    } else {
        assert((a + b).drop_last() == a + b.drop_last());
        assert((a + b).last() == b.last());
        lemma_raised_all_concat(d, a, b.drop_last());
    }
}

/// Raising no exception changes nothing; raising one is [`DefView::raised`].
pub proof fn lemma_raised_all_small<I>(d: DefView<I>, m: Seq<char>)
    ensures
        d.raised_all(Seq::empty()) == d,
        d.raised_all(seq![m]) == d.raised(m, true),
{
    assert(seq![m].drop_last() == Seq::<Seq<char>>::empty());
}

/// Raising halting exceptions leaves the definition halted when it was, or
/// when there was at least one, and leaves its registers and instructions as
/// they were.
pub proof fn lemma_raised_all_halts<I>(d: DefView<I>, msgs: Seq<Seq<char>>)
    ensures
        d.raised_all(msgs).halted == (d.halted || msgs.len() > 0),
        d.raised_all(msgs).registers == d.registers,
        d.raised_all(msgs).instructions == d.instructions,
    decreases msgs.len(),
{
    if msgs.len() > 0 {
        lemma_raised_all_halts(d, msgs.drop_last());
    }
}

} // verus!

verus! {

/// The first line of a state dump.
pub open spec fn dump_header() -> Seq<char> {
    "== ASMDefinition STATE DUMP BEGIN =="@
}

/// The last line of a state dump.
pub open spec fn dump_footer() -> Seq<char> {
    "== ASMDefinition STATE DUMP END =="@
}

/// The dump line of the register `name` holding `value`.
pub open spec fn register_line(name: Seq<char>, value: ValueView) -> Seq<char> {
    "REGISTER "@ + name + " is "@ + holder_text(value.holder)
}

/// The dump line of the instruction `name`.
pub open spec fn instruction_line(name: Seq<char>) -> Seq<char> {
    "FOUND INSTRUCTION: "@ + name
}

/// The views of a list of names.
pub open spec fn names_view(names: Seq<String>) -> Seq<Seq<char>> {
    Seq::new(names.len(), |k: int| names[k]@)
}

/// The dump of `d` listing its registers in the order `regs` and its
/// instructions in the order `instrs`: a header, a line per register with its
/// value, a line per instruction, a footer.
pub open spec fn dump_spec<I>(d: DefView<I>, regs: Seq<Seq<char>>, instrs: Seq<Seq<char>>) -> Seq<
    Seq<char>,
> {
    seq![dump_header()] + Seq::new(
        regs.len(),
        |k: int| register_line(regs[k], d.registers[regs[k]]),
    ) + Seq::new(instrs.len(), |k: int| instruction_line(instrs[k])) + seq![dump_footer()]
}

/// The text of `parts`, one after another.
fn join_texts(parts: &Vec<&str>) -> (r: String)
    ensures
        r@ == parts@.fold_left(Seq::<char>::empty(), |acc: Seq<char>, p: &str| acc + p@),
{
    let mut out: Vec<char> = Vec::new();
    let n = parts.len();
    for k in 0..n
        invariant
            n == parts@.len(),
            out@ == parts@.take(k as int).fold_left(
                Seq::<char>::empty(),
                |acc: Seq<char>, p: &str| acc + p@,
            ),
    {
        let mut piece = string_chars(parts[k]);
        out.append(&mut piece);
        assert(parts@.take(k + 1).drop_last() == parts@.take(k as int));
    }
    assert(parts@.take(n as int) == parts@);
    chars_to_string(&out)
}

impl<I: Instruction> ASMDefinition<I> {
    /// The lines of a state dump: a header, `REGISTER name is value` for each
    /// register, `FOUND INSTRUCTION: name` for each instruction, a footer.
    pub fn dump_lines(&self) -> (lines: Vec<String>)
        ensures
            exists|regs: Seq<String>, instrs: Seq<String>|
                names_list(regs, self@.registers) && names_list(instrs, self@.instructions)
                    && lines@.map_values(|s: String| s@) == dump_spec(
                    self@,
                    names_view(regs),
                    names_view(instrs),
                ),
    {
        let regs = self.register_names();
        let instrs = self.instruction_names();
        let ghost rv = names_view(regs@);
        let ghost iv = names_view(instrs@);
        let mut lines: Vec<String> = Vec::new();
        lines.push("== ASMDefinition STATE DUMP BEGIN ==".to_owned());
        let nr = regs.len();
        for k in 0..nr
            invariant
                nr == regs@.len(),
                rv == names_view(regs@),
                names_list(regs@, self@.registers),
                lines@.map_values(|s: String| s@) == seq![dump_header()] + Seq::new(
                    k as nat,
                    |j: int| register_line(rv[j], self@.registers[rv[j]]),
                ),
        {
            assert(self@.registers.dom().contains(regs@[k as int]@));
            let value = match self.get_register(regs[k].as_str()) {
                Some(v) => v,
                None => ASMValue::new_empty(false),
            };
            let shown = value.to_string();
            let parts: Vec<&str> = vec!["REGISTER ", regs[k].as_str(), " is ", shown.as_str()];
            let line = join_texts(&parts);
            proof {
                reveal_with_fuel(Seq::fold_left, 5);
                assert(parts@.drop_last().drop_last().drop_last().drop_last() =~= Seq::<&str>::empty());
            }
            assert(line@ == register_line(rv[k as int], self@.registers[rv[k as int]]));
            let ghost before = lines@;
            lines.push(line);
            assert(lines@.map_values(|s: String| s@) =~= seq![dump_header()] + Seq::new(
                (k + 1) as nat,
                |j: int| register_line(rv[j], self@.registers[rv[j]]),
            )) by {
                assert(lines@ == before.push(line));
                assert(lines@.map_values(|s: String| s@) =~= before.map_values(|s: String| s@).push(
                    line@,
                ));
                assert(Seq::new((k + 1) as nat, |j: int| register_line(rv[j], self@.registers[rv[j]]))
                    =~= Seq::new(k as nat, |j: int| register_line(rv[j], self@.registers[rv[j]])).push(
                    line@,
                ));
            }
        }
        let ghost after_regs = lines@.map_values(|s: String| s@);
        let ni = instrs.len();
        for k in 0..ni
            invariant
                ni == instrs@.len(),
                iv == names_view(instrs@),
                lines@.map_values(|s: String| s@) == after_regs + Seq::new(
                    k as nat,
                    |j: int| instruction_line(iv[j]),
                ),
        {
            let parts: Vec<&str> = vec!["FOUND INSTRUCTION: ", instrs[k].as_str()];
            let line = join_texts(&parts);
            proof {
                reveal_with_fuel(Seq::fold_left, 3);
                assert(parts@.drop_last().drop_last() =~= Seq::<&str>::empty());
            }
            let ghost before = lines@;
            lines.push(line);
            assert(lines@.map_values(|s: String| s@) =~= after_regs + Seq::new(
                (k + 1) as nat,
                |j: int| instruction_line(iv[j]),
            )) by {
                assert(lines@ == before.push(line));
                assert(lines@.map_values(|s: String| s@) =~= before.map_values(|s: String| s@).push(
                    line@,
                ));
                assert(Seq::new((k + 1) as nat, |j: int| instruction_line(iv[j])) =~= Seq::new(
                    k as nat,
                    |j: int| instruction_line(iv[j]),
                ).push(line@));
            }
        }
        let ghost before = lines@;
        lines.push("== ASMDefinition STATE DUMP END ==".to_owned());
        assert(lines@.map_values(|s: String| s@) =~= dump_spec(self@, rv, iv)) by {
            assert(lines@ == before.push(lines@.last()));
        }
        lines
    }
}

} // verus!
