//! The virtual machine: one aggregate owning the data stack, the call stack,
//! the instruction memory, the dictionary and the compiler's mode, with the
//! execution loop `run`.
use crate::instr::CompileMode;
use crate::instr::Instr;
use crate::instr::VmError;
use crate::instr::Word;
use crate::instr::WordView;
use crate::sem::MachineState;
use crate::sem::StepResult;
use crate::sem::step;
use crate::sem::step_ins;
use crate::sem::step_n;
use crate::text::push_decimal;
use vstd::prelude::*;

verus! {

/// The most steps one `run` call will take before giving up with
/// `VmError::StepLimit`. No halting session reaches it in practice.
pub const STEP_LIMIT: u64 = u64::MAX;

/// The dictionary's initial entries, in order: each built-in word names the
/// single instruction it compiles to.
pub open spec fn builtin_words() -> Seq<WordView> {
    seq![
        (WordView { name: "DUP"@, body: seq![Instr::DUP] }),
        (WordView { name: "DROP"@, body: seq![Instr::DROP] }),
        (WordView { name: "SWAP"@, body: seq![Instr::SWAP] }),
        (WordView { name: "+"@, body: seq![Instr::ADD] }),
        (WordView { name: "-"@, body: seq![Instr::SUB] }),
        (WordView { name: "*"@, body: seq![Instr::MUL] }),
        (WordView { name: "/"@, body: seq![Instr::DIV] }),
        (WordView { name: "CALL"@, body: seq![Instr::CALL] }),
        (WordView { name: "JUMP"@, body: seq![Instr::JUMP] }),
        (WordView { name: ";"@, body: seq![Instr::RET] }),
        (WordView { name: "."@, body: seq![Instr::PRINT] }),
    ]
}

/// The whole interpreter state: runtime state (stacks, instruction memory,
/// instruction pointer, output) together with the compiler's persistent
/// state (dictionary, mode, comment flag).
pub struct VM {
    pub data_stack: Vec<usize>,
    pub call_stack: Vec<usize>,
    pub instruction_memory: Vec<Instr>,
    pub instruction_pointer: usize,
    pub compile_mode: CompileMode,
    pub words: Vec<Word>,
    pub in_comment: bool,
    pub output: Vec<u8>,
}

impl VM {
    /// The machine's runtime state as the semantics sees it.
    pub open spec fn machine(&self) -> MachineState {
        MachineState {
            data: self.data_stack@,
            call: self.call_stack@,
            mem: self.instruction_memory@,
            ip: self.instruction_pointer as nat,
            out: self.output@,
        }
    }

    /// The dictionary as a sequence of entry views, oldest first.
    pub open spec fn words_view(&self) -> Seq<WordView> {
        self.words@.map_values(|w: Word| w@)
    }

    /// A fresh machine: empty stacks, memory and output, top-level mode, and
    /// the built-in vocabulary in the dictionary.
    pub fn new() -> (vm: VM)
        ensures
            vm.data_stack@.len() == 0,
            vm.call_stack@.len() == 0,
            vm.instruction_memory@.len() == 0,
            vm.instruction_pointer == 0,
            vm.compile_mode == CompileMode::TopLevel,
            vm.in_comment == false,
            vm.output@.len() == 0,
            vm.words_view() == builtin_words(),
    {
        let mut words: Vec<Word> = Vec::new();
        words.push(builtin("DUP", Instr::DUP));
        words.push(builtin("DROP", Instr::DROP));
        words.push(builtin("SWAP", Instr::SWAP));
        words.push(builtin("+", Instr::ADD));
        words.push(builtin("-", Instr::SUB));
        words.push(builtin("*", Instr::MUL));
        words.push(builtin("/", Instr::DIV));
        words.push(builtin("CALL", Instr::CALL));
        words.push(builtin("JUMP", Instr::JUMP));
        words.push(builtin(";", Instr::RET));
        words.push(builtin(".", Instr::PRINT));
        let vm = VM {
            data_stack: Vec::new(),
            call_stack: Vec::new(),
            instruction_memory: Vec::new(),
            instruction_pointer: 0,
            compile_mode: CompileMode::TopLevel,
            words,
            in_comment: false,
            output: Vec::new(),
        };
        proof {
            assert(vm.words_view() =~= builtin_words());
        }
        vm
    }

    /// Pops the data stack; an empty stack fails with `StackUnderflow` and
    /// leaves the whole machine unchanged.
    pub fn pop_data_stack(&mut self) -> (r: Result<usize, VmError>)
        ensures
            final(self).call_stack == old(self).call_stack,
            final(self).instruction_memory == old(self).instruction_memory,
            final(self).instruction_pointer == old(self).instruction_pointer,
            final(self).compile_mode == old(self).compile_mode,
            final(self).words == old(self).words,
            final(self).in_comment == old(self).in_comment,
            final(self).output == old(self).output,
            match r {
                Ok(v) => old(self).data_stack@.len() > 0 && v == old(self).data_stack@.last()
                    && final(self).data_stack@ == old(self).data_stack@.drop_last(),
                Err(e) => old(self).data_stack@.len() == 0 && e is StackUnderflow
                    && final(self).data_stack@ == old(self).data_stack@,
            },
    {
        match self.data_stack.pop() {
            Some(n) => {
                proof {
                    assert(self.data_stack@ =~= old(self).data_stack@.drop_last());
                }
                Ok(n)
            },
            None => Err(VmError::StackUnderflow),
        }
    }

    /// Pops the call stack; an empty stack fails with `StackUnderflow` and
    /// leaves the whole machine unchanged.
    pub fn pop_call_stack(&mut self) -> (r: Result<usize, VmError>)
        ensures
            final(self).data_stack == old(self).data_stack,
            final(self).instruction_memory == old(self).instruction_memory,
            final(self).instruction_pointer == old(self).instruction_pointer,
            final(self).compile_mode == old(self).compile_mode,
            final(self).words == old(self).words,
            final(self).in_comment == old(self).in_comment,
            final(self).output == old(self).output,
            match r {
                Ok(v) => old(self).call_stack@.len() > 0 && v == old(self).call_stack@.last()
                    && final(self).call_stack@ == old(self).call_stack@.drop_last(),
                Err(e) => old(self).call_stack@.len() == 0 && e is StackUnderflow
                    && final(self).call_stack@ == old(self).call_stack@,
            },
    {
        match self.call_stack.pop() {
            Some(n) => {
                proof {
                    assert(self.call_stack@ =~= old(self).call_stack@.drop_last());
                }
                Ok(n)
            },
            None => Err(VmError::StackUnderflow),
        }
    }

    /// Executes one fetched instruction, exactly as `step_ins` describes.
    fn exec_ins(&mut self, ins: Instr) -> (r: Result<(), VmError>)
        ensures
            final(self).instruction_memory == old(self).instruction_memory,
            final(self).compile_mode == old(self).compile_mode,
            final(self).words == old(self).words,
            final(self).in_comment == old(self).in_comment,
            match r {
                Ok(()) => step_ins(old(self).machine(), ins) == StepResult::Running(
                    final(self).machine(),
                ),
                Err(e) => step_ins(old(self).machine(), ins) == StepResult::Failed(
                    final(self).machine(),
                    e,
                ) && (e is StackUnderflow || e is DivisionByZero),
            },
    {
        match ins {
            Instr::NOP => Ok(()),
            Instr::DUP => {
                let tos = self.pop_data_stack()?;
                self.data_stack.push(tos);
                self.data_stack.push(tos);
                proof {
                    assert(self.data_stack@ =~= old(self).data_stack@.push(tos));
                    assert(self.machine() =~= (MachineState {
                        data: old(self).machine().data.push(old(self).machine().data.last()),
                        ..old(self).machine()
                    }));
                }
                Ok(())
            },
            Instr::DROP => {
                let _tos = self.pop_data_stack()?;
                proof {
                    assert(self.machine() =~= (MachineState {
                        data: old(self).machine().data.drop_last(),
                        ..old(self).machine()
                    }));
                }
                Ok(())
            },
            Instr::SWAP => {
                let b = self.pop_data_stack()?;
                let a = self.pop_data_stack()?;
                self.data_stack.push(b);
                self.data_stack.push(a);
                proof {
                    let pre = old(self).machine();
                    assert(self.machine() =~= (MachineState {
                        data: pre.data.drop_last().drop_last().push(pre.data.last()).push(
                            pre.data[pre.data.len() - 2],
                        ),
                        ..pre
                    }));
                }
                Ok(())
            },
            Instr::ADD => self.exec_arith(ins),
            Instr::SUB => self.exec_arith(ins),
            Instr::MUL => self.exec_arith(ins),
            Instr::DIV => self.exec_arith(ins),
            Instr::IMM(n) => {
                self.data_stack.push(n);
                proof {
                    assert(self.machine() =~= (MachineState {
                        data: old(self).machine().data.push(n),
                        ..old(self).machine()
                    }));
                }
                Ok(())
            },
            Instr::CALL => {
                self.call_stack.push(self.instruction_pointer);
                let target = self.pop_data_stack()?;
                self.instruction_pointer = target;
                proof {
                    let pre = old(self).machine();
                    let pushed = MachineState { call: pre.call.push(pre.ip as usize), ..pre };
                    assert(self.machine() =~= (MachineState {
                        data: pushed.data.drop_last(),
                        ip: pushed.data.last() as nat,
                        ..pushed
                    }));
                }
                Ok(())
            },
            Instr::JUMP => {
                let target = self.pop_data_stack()?;
                self.instruction_pointer = target;
                proof {
                    let pre = old(self).machine();
                    assert(self.machine() =~= (MachineState {
                        data: pre.data.drop_last(),
                        ip: pre.data.last() as nat,
                        ..pre
                    }));
                }
                Ok(())
            },
            Instr::RET => {
                let target = self.pop_call_stack()?;
                self.instruction_pointer = target;
                proof {
                    let pre = old(self).machine();
                    assert(self.machine() =~= (MachineState {
                        call: pre.call.drop_last(),
                        ip: pre.call.last() as nat,
                        ..pre
                    }));
                }
                Ok(())
            },
            Instr::PRINT => {
                let tos = self.pop_data_stack()?;
                self.output.push(32);
                push_decimal(&mut self.output, tos);
                proof {
                    let pre = old(self).machine();
                    assert(self.output@ =~= pre.out + crate::sem::print_bytes(tos));
                    assert(self.machine() =~= (MachineState {
                        data: pre.data.drop_last(),
                        out: pre.out + crate::sem::print_bytes(pre.data.last()),
                        ..pre
                    }));
                }
                Ok(())
            },
        }
    }

    /// Pops `b` then `a` and pushes the value `arith_val` gives; shared by
    /// the four arithmetic opcodes.
    fn exec_arith(&mut self, ins: Instr) -> (r: Result<(), VmError>)
        requires
            ins is ADD || ins is SUB || ins is MUL || ins is DIV,
        ensures
            final(self).instruction_memory == old(self).instruction_memory,
            final(self).compile_mode == old(self).compile_mode,
            final(self).words == old(self).words,
            final(self).in_comment == old(self).in_comment,
            match r {
                Ok(()) => step_ins(old(self).machine(), ins) == StepResult::Running(
                    final(self).machine(),
                ),
                Err(e) => step_ins(old(self).machine(), ins) == StepResult::Failed(
                    final(self).machine(),
                    e,
                ) && (e is StackUnderflow || e is DivisionByZero),
            },
    {
        let b = self.pop_data_stack()?;
        let a = self.pop_data_stack()?;
        let v: usize = match ins {
            Instr::ADD => a.wrapping_add(b),
            Instr::SUB => a.wrapping_sub(b),
            Instr::MUL => a.wrapping_mul(b),
            _ => {
                if b == 0 {
                    proof {
                        let pre = old(self).machine();
                        assert(self.machine() =~= (MachineState {
                            data: pre.data.drop_last().drop_last(),
                            ..pre
                        }));
                    }
                    return Err(VmError::DivisionByZero);
                }
                a / b
            },
        };
        self.data_stack.push(v);
        proof {
            let pre = old(self).machine();
            assert(self.machine() =~= (MachineState {
                data: pre.data.drop_last().drop_last().push(
                    crate::sem::arith_val(ins, pre.data[pre.data.len() - 2], pre.data.last()),
                ),
                ..pre
            }));
        }
        Ok(())
    }

    /// Appends `ins_seq` to instruction memory, points the instruction
    /// pointer at it, and steps the machine until it completes, faults, or
    /// exhausts the step budget; instruction memory is always truncated back
    /// to its length from before the call. The result is exactly what the
    /// small-step semantics says about the extended memory: `Ok` when some
    /// number of steps within the budget completes, a fault error when some
    /// number of steps within the budget fails with it, and `StepLimit` when
    /// the machine is still running after the whole budget.
    pub fn run(&mut self, ins_seq: &[Instr]) -> (r: Result<(), VmError>)
        ensures
            final(self).words == old(self).words,
            final(self).compile_mode == old(self).compile_mode,
            final(self).in_comment == old(self).in_comment,
            final(self).instruction_memory@ == old(self).instruction_memory@,
            ({
                let start = MachineState {
                    data: old(self).data_stack@,
                    call: old(self).call_stack@,
                    mem: old(self).instruction_memory@ + ins_seq@,
                    ip: old(self).instruction_memory@.len(),
                    out: old(self).output@,
                };
                let fin = MachineState {
                    data: final(self).data_stack@,
                    call: final(self).call_stack@,
                    mem: old(self).instruction_memory@ + ins_seq@,
                    ip: final(self).instruction_pointer as nat,
                    out: final(self).output@,
                };
                match r {
                    Ok(()) => exists|n: nat|
                        n <= STEP_LIMIT && #[trigger] step_n(start, n) == StepResult::Done(fin),
                    Err(e) => match e {
                        VmError::StepLimit => step_n(start, STEP_LIMIT as nat)
                            == StepResult::Running(fin),
                        _ => exists|n: nat|
                            n <= STEP_LIMIT && #[trigger] step_n(start, n) == StepResult::Failed(
                                fin,
                                e,
                            ),
                    },
                }
            }),
    {
        let ghost start = MachineState {
            data: self.data_stack@,
            call: self.call_stack@,
            mem: self.instruction_memory@ + ins_seq@,
            ip: self.instruction_memory@.len(),
            out: self.output@,
        };
        let old_len = self.instruction_memory.len();
        self.instruction_pointer = old_len;
        let mut k: usize = 0;
        while k < ins_seq.len()
            invariant
                k <= ins_seq.len(),
                old_len == old(self).instruction_memory@.len(),
                start == (MachineState {
                    data: old(self).data_stack@,
                    call: old(self).call_stack@,
                    mem: old(self).instruction_memory@ + ins_seq@,
                    ip: old(self).instruction_memory@.len() as nat,
                    out: old(self).output@,
                }),
                self.instruction_memory@ == old(self).instruction_memory@ + ins_seq@.subrange(
                    0,
                    k as int,
                ),
                self.data_stack == old(self).data_stack,
                self.call_stack == old(self).call_stack,
                self.output == old(self).output,
                self.words == old(self).words,
                self.compile_mode == old(self).compile_mode,
                self.in_comment == old(self).in_comment,
                self.instruction_pointer == old_len,
            decreases ins_seq.len() - k,
        {
            proof {
                assert(self.instruction_memory@.push(ins_seq@[k as int])
                    =~= old(self).instruction_memory@ + ins_seq@.subrange(0, k + 1));
            }
            self.instruction_memory.push(ins_seq[k]);
            k = k + 1;
        }
        proof {
            assert(ins_seq@.subrange(0, ins_seq@.len() as int) =~= ins_seq@);
            assert(self.machine() =~= start);
        }
        let ghost mut steps: nat = 0;
        let mut fuel: u64 = STEP_LIMIT;
        loop
            invariant
                steps + fuel == STEP_LIMIT,
                old_len == old(self).instruction_memory@.len(),
                start == (MachineState {
                    data: old(self).data_stack@,
                    call: old(self).call_stack@,
                    mem: old(self).instruction_memory@ + ins_seq@,
                    ip: old(self).instruction_memory@.len() as nat,
                    out: old(self).output@,
                }),
                self.instruction_memory@ == start.mem,
                self.words == old(self).words,
                self.compile_mode == old(self).compile_mode,
                self.in_comment == old(self).in_comment,
                step_n(start, steps) == StepResult::Running(self.machine()),
            decreases fuel,
        {
            if fuel == 0 {
                let ghost halted = self.machine();
                self.instruction_memory.truncate(old_len);
                proof {
                    assert(self.instruction_memory@ =~= old(self).instruction_memory@);
                    assert(self.machine() =~= (MachineState {
                        mem: old(self).instruction_memory@,
                        ..halted
                    }));
                }
                return Err(VmError::StepLimit);
            }
            if self.instruction_pointer >= self.instruction_memory.len() {
                let ghost halted = self.machine();
                proof {
                    assert(step(halted) == StepResult::Done(halted));
                    assert(step_n(start, steps + 1) == StepResult::Done(halted));
                }
                self.instruction_memory.truncate(old_len);
                proof {
                    assert(self.instruction_memory@ =~= old(self).instruction_memory@);
                    assert(self.machine() =~= (MachineState {
                        mem: old(self).instruction_memory@,
                        ..halted
                    }));
                }
                return Ok(());
            }
            let ghost before = self.machine();
            let ins = self.instruction_memory[self.instruction_pointer];
            self.instruction_pointer = self.instruction_pointer + 1;
            proof {
                assert(self.machine() =~= (MachineState { ip: before.ip + 1, ..before }));
                assert(step(before) == step_ins(self.machine(), ins));
            }
            match self.exec_ins(ins) {
                Ok(()) => {
                    proof {
                        assert(step_n(start, steps + 1) == StepResult::Running(self.machine()));
                        steps = steps + 1;
                    }
                    fuel = fuel - 1;
                },
                Err(e) => {
                    let ghost failed = self.machine();
                    proof {
                        assert(step_n(start, steps + 1) == StepResult::Failed(failed, e));
                    }
                    self.instruction_memory.truncate(old_len);
                    proof {
                        assert(self.instruction_memory@ =~= old(self).instruction_memory@);
                        assert(self.machine() =~= (MachineState {
                            mem: old(self).instruction_memory@,
                            ..failed
                        }));
                    }
                    return Err(e);
                },
            }
        }
    }

    /// True exactly while a definition is open: in `Definition` or
    /// `DefinitionBody` mode. The driver reports this as "compiled" rather
    /// than "ok".
    pub fn in_compile_mode(&self) -> (r: bool)
        ensures
            r == (self.compile_mode != CompileMode::TopLevel),
    {
        match self.compile_mode {
            CompileMode::TopLevel => false,
            CompileMode::Definition => true,
            CompileMode::DefinitionBody => true,
        }
    }
}

/// Builds a dictionary entry whose body is the one given instruction.
fn builtin(name: &str, ins: Instr) -> (w: Word)
    ensures
        w@ == (WordView { name: name@, body: seq![ins] }),
{
    let mut body: Vec<Instr> = Vec::new();
    body.push(ins);
    let w = Word { name: name.to_owned(), body };
    proof {
        assert(w@.body =~= seq![ins]);
        assert(w@ =~= (WordView { name: name@, body: seq![ins] }));
    }
    w
}

} // verus!
