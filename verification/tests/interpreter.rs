use lib::asm_definition::{ASMDefinition, ASTNode};
use lib::run::{RunState, StepAction};
use lib::scan::scan_is_acceptable;
use lib::asm_instruction::{ASMInstruction, Instruction, Invocation};
use lib::asm_value::{ASMValue, ASMValueHolder};

/// An instruction given by a plain function, as an embedding program would write it.
#[derive(Clone, Copy)]
struct Op(fn(&mut ASMDefinition<Op>, Vec<ASMValue>));

impl Instruction for Op {
    fn effect(&self, _inv: Invocation<Op>) -> bool {
        true
    }

    fn execute(&self, state: &mut ASMDefinition<Op>, args: Vec<ASMValue>) {
        (self.0)(state, args)
    }
}

fn mov(state: &mut ASMDefinition<Op>, args: Vec<ASMValue>) {
    let v = args[1].resolve(state);
    args[0].try_modify_register(state, v);
}

fn add(state: &mut ASMDefinition<Op>, args: Vec<ASMValue>) {
    let sum = args[0].resolve(state).add(args[1].resolve(state));
    args[0].try_modify_register(state, sum);
}

fn halt(state: &mut ASMDefinition<Op>, _args: Vec<ASMValue>) {
    state.raise_exception("stop requested", true);
}

fn nop(_state: &mut ASMDefinition<Op>, _args: Vec<ASMValue>) {}

fn machine() -> ASMDefinition<Op> {
    ASMDefinition::new()
        .insert_register("R1")
        .insert_register("R2")
        .insert_instruction("MOV", Op(mov))
        .insert_instruction("ADD", Op(add))
        .insert_instruction("HALT", Op(halt))
        .insert_instruction("NOP", Op(nop))
}

fn int_of(def: &ASMDefinition<Op>, name: &str) -> Option<i32> {
    def.get_register(name).and_then(|v| v.try_into_i32().ok())
}

fn describe(tokens: &[ASTNode]) -> Vec<String> {
    tokens
        .iter()
        .map(|t| match t {
            ASTNode::ASTValue(v) => format!("V{}", v.to_string()),
            ASTNode::ASTInstruction(s) => format!("I{}", s),
            ASTNode::ASTRegister(s) => format!("R{}", s),
            ASTNode::ASTExprEnd => ";".to_string(),
        })
        .collect()
}

// ---------------------------------------------------------------------------
// Building a definition
// ---------------------------------------------------------------------------

#[test]
fn new_definition_has_nothing_declared() {
    let def: ASMDefinition<Op> = ASMDefinition::new();
    assert!(def.register_names().is_empty());
    assert!(def.instruction_names().is_empty());
    assert_eq!(def.errors(), 0);
    assert!(!def.is_halted());
}

#[test]
fn declared_names_come_once() {
    let def = machine().insert_register("R1").insert_instruction("MOV", Op(nop));
    let mut registers = def.register_names();
    registers.sort();
    assert_eq!(registers, vec!["R1".to_string(), "R2".to_string()]);
    let mut instructions = def.instruction_names();
    instructions.sort();
    assert_eq!(
        instructions,
        vec!["ADD".to_string(), "HALT".to_string(), "MOV".to_string(), "NOP".to_string()]
    );
    assert!(def.has_register("R2"));
    assert!(!def.has_register("R3"));
    assert!(def.has_instruction("ADD"));
    assert!(!def.has_instruction("SUB"));
}

#[test]
fn new_register_holds_the_empty_value() {
    let def = machine();
    let v = def.get_register("R1").unwrap();
    assert!(matches!(v.get_value_holder(), ASMValueHolder::Invalid));
    assert!(v.get_lang_definition());
    assert_eq!(v.to_string(), "NIL");
    assert!(def.get_register("R9").is_none());
}

#[test]
fn raise_exception_counts_and_halts() {
    let mut def = machine();
    def.raise_exception("first", false);
    assert_eq!(def.errors(), 1);
    assert!(!def.is_halted());
    def.raise_exception("second", true);
    assert_eq!(def.errors(), 2);
    assert!(def.is_halted());
    assert_eq!(def.take_output(), vec!["first".to_string(), "second".to_string()]);
    assert!(def.take_output().is_empty());
}

// ---------------------------------------------------------------------------
// Values
// ---------------------------------------------------------------------------

#[test]
fn integer_values_round_trip() {
    let v: ASMValue = 42.into();
    assert_eq!(v.try_into_i32(), Ok(42));
    assert!(!v.get_lang_definition());
    let w = ASMValue::from(-7);
    assert_eq!(w.try_into_i32(), Ok(-7));
}

#[test]
fn non_integer_values_do_not_convert() {
    assert_eq!(ASMValue::new_empty(true).try_into_i32(), Err("Wrong value type!"));
    assert_eq!(
        ASMValue::new_reg("R1".to_string(), true).try_into_i32(),
        Err("Wrong value type!")
    );
}

#[test]
fn display_of_values() {
    assert_eq!(ASMValue::new_int(-2147483648, false).to_string(), "-2147483648");
    assert_eq!(ASMValue::new_int(0, false).to_string(), "0");
    assert_eq!(ASMValue::new_int(905, false).to_string(), "905");
    assert_eq!(ASMValue::new_reg("R7".to_string(), false).to_string(), "R7");
    assert_eq!(ASMValue::new_empty(false).to_string(), "NIL");
    assert_eq!(ASMValueHolder::Str("text".to_string()).to_string(), "text");
}

#[test]
fn adding_values() {
    let s = ASMValue::new_int(40, true).add(ASMValue::new_int(2, false));
    assert_eq!(s.try_into_i32(), Ok(42));
    assert!(s.get_lang_definition());
    let e = ASMValue::new_int(1, false).add(ASMValue::new_empty(false));
    assert!(matches!(e.get_value_holder(), ASMValueHolder::Invalid));
    let f = ASMValue::new_empty(true).add(ASMValue::new_int(3, false));
    assert!(matches!(f.get_value_holder(), ASMValueHolder::Invalid));
    assert!(f.get_lang_definition());
    let g = ASMValue::new_int(-5, false).add(ASMValue::new_int(-6, false));
    assert_eq!(g.try_into_i32(), Ok(-11));
}

#[test]
fn read_after_write_through_register() {
    let mut def = machine();
    let r1 = ASMValue::new_reg("R1".to_string(), true);
    r1.try_modify_register(&mut def, ASMValue::new_int(17, false));
    assert_eq!(r1.try_resolve_register(&def).unwrap().try_into_i32(), Ok(17));
    assert_eq!(r1.resolve(&def).try_into_i32(), Ok(17));
    assert!(matches!(def.get_register("R2").unwrap().get_value_holder(), ASMValueHolder::Invalid));
    assert!(def.take_output().is_empty());
}

#[test]
fn write_declares_a_new_register() {
    let mut def = machine();
    let r3 = ASMValue::new_reg("R3".to_string(), true);
    r3.try_modify_register(&mut def, ASMValue::new_int(3, false));
    assert_eq!(int_of(&def, "R3"), Some(3));
    assert_eq!(def.register_names().len(), 3);
}

#[test]
fn write_through_unbound_or_non_register() {
    let mut def = machine();
    ASMValue::new_reg("R1".to_string(), false).try_modify_register(&mut def, ASMValue::new_int(1, false));
    ASMValue::new_int(5, true).try_modify_register(&mut def, ASMValue::new_int(1, false));
    assert_eq!(
        def.take_output(),
        vec!["Failed to modify state of R1".to_string(), "Value is not a register!".to_string()]
    );
    assert_eq!(int_of(&def, "R1"), None);
    assert_eq!(def.errors(), 0);
}

#[test]
fn resolving_values() {
    let def = machine();
    assert_eq!(ASMValue::new_int(9, false).resolve(&def).try_into_i32(), Ok(9));
    assert!(ASMValue::new_int(9, true).try_resolve_register(&def).is_err());
    assert_eq!(
        ASMValue::new_int(9, true).try_resolve_register(&def).err(),
        Some("ASMValue wasnt a reference!")
    );
    assert_eq!(
        ASMValue::new_reg("R1".to_string(), false).try_resolve_register(&def).err(),
        Some("ASMValue was a reference and wasnt holding a valid lanugage definition pointer!")
    );
}

// ---------------------------------------------------------------------------
// Scanning
// ---------------------------------------------------------------------------

#[test]
fn scan_simple_program() {
    let mut def = machine();
    let toks = def.scan("MOV R1 5\nADD R1 R2".to_string());
    assert_eq!(describe(&toks), vec!["IMOV", "RR1", "V5", ";", "IADD", "RR1", "RR2", ";"]);
    assert_eq!(def.errors(), 0);
    assert!(!def.is_halted());
}

#[test]
fn scan_skips_blank_and_comment_lines() {
    let mut def = machine();
    let toks = def.scan("\n   \n;; just a comment\nNOP ;; trailing\nNOP\t \n".to_string());
    assert_eq!(describe(&toks), vec!["INOP", ";", "INOP", ";"]);
    assert_eq!(def.errors(), 0);
}

#[test]
fn scan_comment_is_ignored() {
    let mut a = machine();
    let mut b = machine();
    let with = a.scan("MOV R1 R2;;MOV R2 R1".to_string());
    let without = b.scan("MOV R1 R2".to_string());
    assert_eq!(describe(&with), describe(&without));
}

#[test]
fn scan_unknown_instruction_halts() {
    let mut def = machine();
    let toks = def.scan("JMP loop\nloop:".to_string());
    assert_eq!(describe(&toks), vec!["IJMP", "Rloop", ";", "Iloop:", ";"]);
    assert_eq!(def.errors(), 2);
    assert!(def.is_halted());
    assert_eq!(
        def.take_output(),
        vec!["JMP is an unknown instruction".to_string(), "loop: is an unknown instruction".to_string()]
    );
}

#[test]
fn scan_empty_argument_halts() {
    let mut def = machine();
    let toks = def.scan("MOV  R1".to_string());
    assert_eq!(describe(&toks), vec!["IMOV", ";", "RR1", ";"]);
    assert!(def.is_halted());
    assert_eq!(def.take_output(), vec!["Empty argument!".to_string()]);
}

#[test]
fn scan_bracketed_register() {
    let mut def = machine();
    let toks = def.scan("MOV [R1] 0\nADD [R1] [R2]".to_string());
    assert_eq!(describe(&toks), vec!["IMOV", "RR1", "V0", ";", "IADD", "RR1", "RR2", ";"]);
    assert!(!def.is_halted());
    assert_eq!(def.errors(), 0);
}

#[test]
fn scan_other_bracketed_words_end_expression() {
    let mut def = machine();
    let toks = def.scan("NOP [] [R-1] [R1 [R1]]".to_string());
    assert_eq!(describe(&toks), vec!["INOP", ";", ";", ";", ";", ";"]);
    assert!(!def.is_halted());
}

#[test]
fn readme_program_moves_and_adds() {
    let mut def = machine().insert_register("R3");
    assert!(def.interpret_checked("MOV [R1] 0\nMOV [R2] 1\nADD [R1] [R2]".to_string()));
    assert_eq!(int_of(&def, "R1"), Some(1));
    assert_eq!(int_of(&def, "R2"), Some(1));
    assert!(matches!(def.get_register("R3").unwrap().get_value_holder(), ASMValueHolder::Invalid));
    assert_eq!(def.errors(), 0);
    assert!(!def.is_halted());
}

#[test]
fn scan_unicode_letters_and_whitespace() {
    let mut def = machine();
    let toks = def.scan("NOP Ré\u{3000} 007\u{2003}".to_string());
    assert_eq!(describe(&toks), vec!["INOP", "RRé", "V7", ";"]);
}

#[test]
fn scan_acceptance() {
    assert!(scan_is_acceptable(&"MOV R1 2147483647".to_string()));
    assert!(!scan_is_acceptable(&"MOV R1 2147483648".to_string()));
    assert!(!scan_is_acceptable(&"MOV R1 \u{0663}".to_string()));
    assert!(!scan_is_acceptable(&"MOV R1 \"hi\"".to_string()));
    assert!(scan_is_acceptable(&"MOV R1 \"h i\"".to_string()));
    assert!(scan_is_acceptable(&"\"hi\" R1".to_string()));
    assert!(scan_is_acceptable(&"MOV R1 2147483648 ;; 1".to_string()) == false);
    assert!(scan_is_acceptable(&"NOP ;; \"x\" 99999999999".to_string()));
}

// ---------------------------------------------------------------------------
// Running
// ---------------------------------------------------------------------------

#[test]
fn run_moves_and_adds() {
    let mut def = machine();
    assert!(def.interpret_checked("MOV R1 5\nMOV R2 7\nADD R1 R2\nADD R1 R1".to_string()));
    assert_eq!(int_of(&def, "R1"), Some(24));
    assert_eq!(int_of(&def, "R2"), Some(7));
    assert_eq!(def.errors(), 0);
}

#[test]
fn interpret_runs_scanned_program() {
    let mut def = machine();
    def.interpret("MOV R2 3 ;; set R2".to_string());
    assert_eq!(int_of(&def, "R2"), Some(3));
}

#[test]
fn run_value_without_instruction() {
    let mut def = machine();
    def.run(vec![ASTNode::ASTValue(ASMValue::new_int(1, false))]);
    assert!(def.is_halted());
    assert_eq!(def.errors(), 1);
    assert_eq!(def.take_output(), vec!["ASTValue encountered with no instruction present".to_string()]);
}

#[test]
fn run_nested_instruction() {
    let mut def = machine();
    def.run(vec![
        ASTNode::ASTInstruction("NOP".to_string()),
        ASTNode::ASTInstruction("NOP".to_string()),
    ]);
    assert!(def.is_halted());
    assert_eq!(
        def.take_output(),
        vec!["ASTInstruction encountered when another instruction is called".to_string()]
    );
}

#[test]
fn run_undeclared_instruction() {
    let mut def = machine();
    def.run(vec![ASTNode::ASTInstruction("SUB".to_string()), ASTNode::ASTExprEnd]);
    assert!(def.is_halted());
    assert_eq!(def.take_output(), vec!["Not a valid instruction".to_string()]);
}

#[test]
fn run_undeclared_register() {
    let mut def = machine();
    def.run(vec![
        ASTNode::ASTInstruction("MOV".to_string()),
        ASTNode::ASTRegister("R5".to_string()),
        ASTNode::ASTValue(ASMValue::new_int(1, false)),
        ASTNode::ASTExprEnd,
    ]);
    assert!(def.is_halted());
    assert_eq!(def.take_output(), vec!["Register not defined in ASMDefinition".to_string()]);
    assert_eq!(int_of(&def, "R5"), None);
}

#[test]
fn halted_definition_runs_nothing() {
    let mut def = machine();
    def.raise_exception("stop", true);
    def.take_output();
    def.run(vec![
        ASTNode::ASTInstruction("MOV".to_string()),
        ASTNode::ASTRegister("R1".to_string()),
        ASTNode::ASTValue(ASMValue::new_int(1, false)),
        ASTNode::ASTExprEnd,
    ]);
    assert_eq!(int_of(&def, "R1"), None);
    assert_eq!(def.errors(), 1);
    assert!(def.take_output().is_empty());
}

#[test]
fn instruction_can_halt_the_run() {
    let mut def = machine();
    assert!(def.interpret_checked("MOV R1 1\nHALT\nMOV R1 2".to_string()));
    assert_eq!(int_of(&def, "R1"), Some(1));
    assert!(def.is_halted());
    assert_eq!(def.take_output(), vec!["stop requested".to_string()]);
}

#[test]
fn register_outside_instruction_is_refused() {
    let mut def = machine();
    assert!(!def.interpret_checked("MOV [R-1] R2".to_string()));
    assert!(!def.is_halted());
    let toks = vec![ASTNode::ASTExprEnd, ASTNode::ASTRegister("R1".to_string())];
    assert!(!def.run_terminates(&toks));
    let ok = vec![
        ASTNode::ASTInstruction("NOP".to_string()),
        ASTNode::ASTRegister("R1".to_string()),
        ASTNode::ASTExprEnd,
    ];
    assert!(def.run_terminates(&ok));
}

#[test]
fn stops_before_a_stray_register_are_accepted() {
    let def = machine();
    let value_first = vec![
        ASTNode::ASTValue(ASMValue::new_int(1, false)),
        ASTNode::ASTRegister("R1".to_string()),
    ];
    assert!(def.run_terminates(&value_first));
    let undeclared_first = vec![
        ASTNode::ASTInstruction("SUB".to_string()),
        ASTNode::ASTExprEnd,
        ASTNode::ASTRegister("R1".to_string()),
    ];
    assert!(def.run_terminates(&undeclared_first));
    let after_call = vec![
        ASTNode::ASTInstruction("NOP".to_string()),
        ASTNode::ASTExprEnd,
        ASTNode::ASTInstruction("SUB".to_string()),
        ASTNode::ASTExprEnd,
        ASTNode::ASTRegister("R1".to_string()),
    ];
    assert!(!def.run_terminates(&after_call));
    let mut halted = machine();
    halted.raise_exception("x", true);
    let stray = vec![ASTNode::ASTRegister("R1".to_string())];
    assert!(halted.run_terminates(&stray));
    halted.run(stray);
    assert_eq!(halted.errors(), 1);
}

#[test]
fn run_stops_at_value_before_stray_register() {
    let mut def = machine();
    def.run(vec![
        ASTNode::ASTValue(ASMValue::new_int(1, false)),
        ASTNode::ASTRegister("R1".to_string()),
    ]);
    assert!(def.is_halted());
    assert_eq!(def.errors(), 1);
}

#[test]
fn interpret_checked_refuses_unscannable_text() {
    let mut def = machine();
    assert!(!def.interpret_checked("MOV R1 99999999999".to_string()));
    assert_eq!(def.errors(), 0);
    assert!(!def.is_halted());
}

#[test]
fn halted_by_scan_then_nothing_runs() {
    let mut def = machine();
    assert!(def.interpret_checked("MOV R1 4\nFOO".to_string()));
    assert_eq!(int_of(&def, "R1"), None);
    assert!(def.is_halted());
}

#[test]
fn instruction_call_with_slice() {
    let mut def = machine();
    let instr = ASMInstruction::new(Op(mov));
    let args = [ASMValue::new_reg("R2".to_string(), true), ASMValue::new_int(8, false)];
    instr.call_with_slice(&mut def, &args);
    assert_eq!(int_of(&def, "R2"), Some(8));
    instr.call(&mut def, vec![ASMValue::new_reg("R1".to_string(), true), ASMValue::new_int(2, false)]);
    assert_eq!(int_of(&def, "R1"), Some(2));
}

#[test]
fn step_by_step() {
    let mut def = machine();
    let mut state = RunState::new();
    assert!(matches!(
        def.step(&mut state, &ASTNode::ASTInstruction("MOV".to_string())),
        StepAction::Continue
    ));
    assert!(matches!(
        def.step(&mut state, &ASTNode::ASTRegister("R1".to_string())),
        StepAction::Continue
    ));
    assert!(matches!(
        def.step(&mut state, &ASTNode::ASTValue(ASMValue::new_int(6, false))),
        StepAction::Continue
    ));
    match def.step(&mut state, &ASTNode::ASTExprEnd) {
        StepAction::Call(instruction, args) => {
            assert_eq!(args.len(), 2);
            assert_eq!(args[0].to_string(), "R1");
            assert!(args[0].get_lang_definition());
            assert_eq!(args[1].try_into_i32(), Ok(6));
            instruction.call(&mut def, args);
        }
        _ => panic!("the end of the expression calls the instruction"),
    }
    assert_eq!(int_of(&def, "R1"), Some(6));
    assert!(matches!(def.step(&mut state, &ASTNode::ASTExprEnd), StepAction::Continue));
}

#[test]
fn step_register_outside_instruction_repeats() {
    let mut def = machine();
    let mut state = RunState::new();
    let token = ASTNode::ASTRegister("R1".to_string());
    assert!(matches!(def.step(&mut state, &token), StepAction::Repeat));
    assert!(matches!(def.step(&mut state, &token), StepAction::Repeat));
    assert_eq!(def.errors(), 2);
    assert!(!def.is_halted());
    assert_eq!(
        def.take_output(),
        vec![
            "Register reference encountered with no instruction present".to_string(),
            "Register reference encountered with no instruction present".to_string()
        ]
    );
}

#[test]
fn step_on_halted_definition_stops() {
    let mut def = machine();
    def.raise_exception("halt", true);
    let mut state = RunState::new();
    assert!(matches!(
        def.step(&mut state, &ASTNode::ASTInstruction("MOV".to_string())),
        StepAction::Stop
    ));
    assert_eq!(def.errors(), 1);
}

#[test]
fn dump_lines_list_registers_and_instructions() {
    let def: ASMDefinition<Op> = ASMDefinition::new()
        .insert_register("R1")
        .insert_instruction("MOV", Op(mov));
    assert_eq!(
        def.dump_lines(),
        vec![
            "== ASMDefinition STATE DUMP BEGIN ==".to_string(),
            "REGISTER R1 is NIL".to_string(),
            "FOUND INSTRUCTION: MOV".to_string(),
            "== ASMDefinition STATE DUMP END ==".to_string(),
        ]
    );
    let mut def = machine();
    assert!(def.interpret_checked("MOV R2 42".to_string()));
    let lines = def.dump_lines();
    assert_eq!(lines.len(), 8);
    assert_eq!(lines[0], "== ASMDefinition STATE DUMP BEGIN ==");
    assert_eq!(lines[7], "== ASMDefinition STATE DUMP END ==");
    let mut registers = lines[1..3].to_vec();
    registers.sort();
    assert_eq!(registers, vec!["REGISTER R1 is NIL".to_string(), "REGISTER R2 is 42".to_string()]);
    let mut instructions = lines[3..7].to_vec();
    instructions.sort();
    assert_eq!(
        instructions,
        vec![
            "FOUND INSTRUCTION: ADD".to_string(),
            "FOUND INSTRUCTION: HALT".to_string(),
            "FOUND INSTRUCTION: MOV".to_string(),
            "FOUND INSTRUCTION: NOP".to_string(),
        ]
    );
}

#[test]
fn halt_before_a_stray_register_ends_the_run() {
    let mut def = machine();
    let tokens = def.scan("HALT\nMOV [x-y] R1".to_string());
    assert_eq!(describe(&tokens), vec!["IHALT", ";", "IMOV", ";", "RR1", ";"]);
    let mut state = RunState::new();
    let mut position = 0;
    let mut steps = 0;
    while position < tokens.len() {
        steps += 1;
        assert!(steps < 100, "the run does not end");
        match def.step(&mut state, &tokens[position]) {
            StepAction::Continue => position += 1,
            StepAction::Stop => break,
            StepAction::Repeat => {}
            StepAction::Call(instruction, args) => {
                instruction.call(&mut def, args);
                position += 1;
            }
        }
    }
    assert!(def.is_halted());
    assert_eq!(position, 2);
    assert_eq!(def.take_output(), vec!["stop requested".to_string()]);
}
