use miniforth::{Instr, VM, VmError};

/// Compiles one line and runs the transient instructions, panicking on any
/// error; returns nothing, the effects live in `vm`.
fn feed(vm: &mut VM, line: &str) {
    let mut ins_seq: Vec<Instr> = Vec::new();
    vm.compile_line(line, &mut ins_seq).expect("compile failed");
    vm.run(&ins_seq).expect("run failed");
}

/// Compiles one line and returns the run result, panicking on compile errors.
fn feed_run(vm: &mut VM, line: &str) -> Result<(), VmError> {
    let mut ins_seq: Vec<Instr> = Vec::new();
    vm.compile_line(line, &mut ins_seq).expect("compile failed");
    vm.run(&ins_seq)
}

#[test]
fn add_two_numbers() {
    let mut vm = VM::new();
    feed(&mut vm, "3 4 +");
    assert_eq!(vm.data_stack, vec![7]);
}

#[test]
fn sub_two_numbers() {
    let mut vm = VM::new();
    feed(&mut vm, "10 3 -");
    assert_eq!(vm.data_stack, vec![7]);
}

#[test]
fn mul_two_numbers() {
    let mut vm = VM::new();
    feed(&mut vm, "6 7 *");
    assert_eq!(vm.data_stack, vec![42]);
}

#[test]
fn div_two_numbers() {
    let mut vm = VM::new();
    feed(&mut vm, "10 2 /");
    assert_eq!(vm.data_stack, vec![5]);
}

#[test]
fn add_wraps_around() {
    let mut vm = VM::new();
    feed(&mut vm, &format!("{} 1 +", usize::MAX));
    assert_eq!(vm.data_stack, vec![0]);
}

#[test]
fn sub_wraps_around() {
    let mut vm = VM::new();
    feed(&mut vm, "0 1 -");
    assert_eq!(vm.data_stack, vec![usize::MAX]);
}

#[test]
fn mul_wraps_around() {
    let mut vm = VM::new();
    feed(&mut vm, &format!("{} 2 *", usize::MAX));
    assert_eq!(vm.data_stack, vec![usize::MAX - 1]);
}

#[test]
fn div_by_zero_fails() {
    let mut vm = VM::new();
    let before = vm.instruction_memory.len();
    let r = feed_run(&mut vm, "1 0 /");
    assert!(matches!(r, Err(VmError::DivisionByZero)));
    assert_eq!(vm.instruction_memory.len(), before);
}

#[test]
fn dup_then_drop_restores_stack() {
    let mut vm = VM::new();
    feed(&mut vm, "5 9");
    feed(&mut vm, "DUP DROP");
    assert_eq!(vm.data_stack, vec![5, 9]);
}

#[test]
fn swap_exchanges_top_two() {
    let mut vm = VM::new();
    feed(&mut vm, "1 2 SWAP");
    assert_eq!(vm.data_stack, vec![2, 1]);
}

#[test]
fn swap_twice_is_identity() {
    let mut vm = VM::new();
    feed(&mut vm, "1 2 SWAP SWAP");
    assert_eq!(vm.data_stack, vec![1, 2]);
}

#[test]
fn pop_empty_data_stack_underflows() {
    let mut vm = VM::new();
    let r = vm.pop_data_stack();
    assert!(matches!(r, Err(VmError::StackUnderflow)));
    assert!(vm.data_stack.is_empty());
}

#[test]
fn pop_empty_call_stack_underflows() {
    let mut vm = VM::new();
    let r = vm.pop_call_stack();
    assert!(matches!(r, Err(VmError::StackUnderflow)));
    assert!(vm.call_stack.is_empty());
}

#[test]
fn drop_on_empty_stack_underflows() {
    let mut vm = VM::new();
    let r = feed_run(&mut vm, "DROP");
    assert!(matches!(r, Err(VmError::StackUnderflow)));
    assert!(vm.data_stack.is_empty());
}

#[test]
fn ret_on_empty_call_stack_underflows() {
    let mut vm = VM::new();
    let r = vm.run(&[Instr::RET]);
    assert!(matches!(r, Err(VmError::StackUnderflow)));
    assert!(vm.call_stack.is_empty());
}

#[test]
fn define_and_invoke_square() {
    let mut vm = VM::new();
    feed(&mut vm, ": SQUARE DUP * ;");
    feed(&mut vm, "5 SQUARE");
    assert_eq!(vm.data_stack, vec![25]);
}

#[test]
fn comment_compiles_to_nothing() {
    let mut vm = VM::new();
    let mut ins_seq: Vec<Instr> = Vec::new();
    vm.compile_line("( this is ignored 42 DUP )", &mut ins_seq).expect("compile failed");
    assert!(ins_seq.is_empty());
    vm.run(&ins_seq).expect("run failed");
    assert!(vm.data_stack.is_empty());
    assert!(!vm.in_compile_mode());
}

#[test]
fn comment_spans_lines() {
    let mut vm = VM::new();
    feed(&mut vm, "1 ( the rest is noise 2 3");
    feed(&mut vm, "4 5 ) 6");
    assert_eq!(vm.data_stack, vec![1, 6]);
}

#[test]
fn failed_run_restores_instruction_memory() {
    let mut vm = VM::new();
    feed(&mut vm, ": W DUP ;");
    let before = vm.instruction_memory.len();
    let r = feed_run(&mut vm, "DROP");
    assert!(matches!(r, Err(VmError::StackUnderflow)));
    assert_eq!(vm.instruction_memory.len(), before);
}

#[test]
fn successful_run_restores_instruction_memory() {
    let mut vm = VM::new();
    let before = vm.instruction_memory.len();
    feed(&mut vm, "1 2 + DROP");
    assert_eq!(vm.instruction_memory.len(), before);
}

#[test]
fn invalid_token_reports_its_text() {
    let mut vm = VM::new();
    let mut ins_seq: Vec<Instr> = Vec::new();
    let r = vm.compile_line("abc", &mut ins_seq);
    assert!(matches!(r, Err(VmError::InvalidToken(t)) if t == "abc"));
    assert!(ins_seq.is_empty());
}

#[test]
fn tokens_before_invalid_one_stay_compiled() {
    let mut vm = VM::new();
    let mut ins_seq: Vec<Instr> = Vec::new();
    let r = vm.compile_line("5 abc 7", &mut ins_seq);
    assert!(matches!(r, Err(VmError::InvalidToken(t)) if t == "abc"));
    assert_eq!(ins_seq, vec![Instr::IMM(5)]);
}

#[test]
fn compiler_recovers_after_invalid_token() {
    let mut vm = VM::new();
    let mut ins_seq: Vec<Instr> = Vec::new();
    assert!(vm.compile_line("abc", &mut ins_seq).is_err());
    ins_seq.clear();
    feed(&mut vm, "42");
    assert_eq!(vm.data_stack, vec![42]);
}

#[test]
fn print_emits_space_and_decimal() {
    let mut vm = VM::new();
    feed(&mut vm, "3 4 +");
    assert_eq!(vm.data_stack, vec![7]);
    feed(&mut vm, ".");
    assert_eq!(vm.output, b" 7".to_vec());
    assert!(vm.data_stack.is_empty());
}

#[test]
fn define_invoke_and_print_in_one_line() {
    let mut vm = VM::new();
    feed(&mut vm, ": DOUBLE DUP + ; 5 DOUBLE .");
    assert_eq!(vm.output, b" 10".to_vec());
}

#[test]
fn print_zero() {
    let mut vm = VM::new();
    feed(&mut vm, "0 .");
    assert_eq!(vm.output, b" 0".to_vec());
}

#[test]
fn builtin_shadows_later_definition() {
    let mut vm = VM::new();
    feed(&mut vm, ": DUP 99 ;");
    feed(&mut vm, "5 DUP");
    assert_eq!(vm.data_stack, vec![5, 5]);
}

#[test]
fn in_compile_mode_follows_definitions() {
    let mut vm = VM::new();
    assert!(!vm.in_compile_mode());
    feed(&mut vm, ": TWICE");
    assert!(vm.in_compile_mode());
    feed(&mut vm, "DUP +");
    assert!(vm.in_compile_mode());
    feed(&mut vm, ";");
    assert!(!vm.in_compile_mode());
    feed(&mut vm, "21 TWICE");
    assert_eq!(vm.data_stack, vec![42]);
}

#[test]
fn numeric_tokens_allow_leading_plus_and_zeros() {
    let mut vm = VM::new();
    feed(&mut vm, "+5 007");
    assert_eq!(vm.data_stack, vec![5, 7]);
}

#[test]
fn largest_number_parses() {
    let mut vm = VM::new();
    feed(&mut vm, &format!("{}", usize::MAX));
    assert_eq!(vm.data_stack, vec![usize::MAX]);
}

#[test]
fn oversized_number_is_invalid() {
    let mut vm = VM::new();
    let mut ins_seq: Vec<Instr> = Vec::new();
    let r = vm.compile_line("18446744073709551616", &mut ins_seq);
    assert!(matches!(r, Err(VmError::InvalidToken(t)) if t == "18446744073709551616"));
    assert!(ins_seq.is_empty());
}

#[test]
fn empty_and_blank_lines_compile_to_nothing() {
    let mut vm = VM::new();
    let mut ins_seq: Vec<Instr> = Vec::new();
    vm.compile_line("", &mut ins_seq).expect("compile failed");
    vm.compile_line(" \t  ", &mut ins_seq).expect("compile failed");
    assert!(ins_seq.is_empty());
}

#[test]
fn jump_past_end_completes() {
    let mut vm = VM::new();
    let r = vm.run(&[Instr::IMM(1000), Instr::JUMP]);
    assert!(r.is_ok());
    assert!(vm.data_stack.is_empty());
    assert_eq!(vm.instruction_memory.len(), 0);
}

#[test]
fn jump_on_empty_stack_underflows() {
    let mut vm = VM::new();
    let r = vm.run(&[Instr::JUMP]);
    assert!(matches!(r, Err(VmError::StackUnderflow)));
}

#[test]
fn call_on_empty_stack_underflows() {
    let mut vm = VM::new();
    let r = vm.run(&[Instr::CALL]);
    assert!(matches!(r, Err(VmError::StackUnderflow)));
    assert_eq!(vm.call_stack.len(), 1);
}

#[test]
fn nested_definitions_call_each_other() {
    let mut vm = VM::new();
    feed(&mut vm, ": DOUBLE DUP + ;");
    feed(&mut vm, ": QUAD DOUBLE DOUBLE ;");
    feed(&mut vm, "3 QUAD");
    assert_eq!(vm.data_stack, vec![12]);
}

#[test]
fn definition_body_grows_memory_permanently() {
    let mut vm = VM::new();
    assert_eq!(vm.instruction_memory.len(), 0);
    feed(&mut vm, ": DOUBLE DUP + ;");
    // DUP, ADD and the RET from `;` stay in instruction memory.
    assert_eq!(vm.instruction_memory.len(), 3);
    feed(&mut vm, "1 DOUBLE");
    assert_eq!(vm.instruction_memory.len(), 3);
}
