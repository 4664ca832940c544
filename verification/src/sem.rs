//! The mathematical semantics of the machine: its state as plain sequences,
//! the effect of one instruction, the small-step relation, and general laws
//! about short programs that `VM::run`'s contract is stated against.
use crate::instr::Instr;
use crate::instr::VmError;
use crate::text::dec_digits;
use vstd::prelude::*;

verus! {

/// The machine's whole runtime state: data stack, call stack, instruction
/// memory, instruction pointer and the output accumulated by `PRINT`.
/// Stacks grow at the end of their sequence.
#[verifier::ext_equal]
pub ghost struct MachineState {
    pub data: Seq<usize>,
    pub call: Seq<usize>,
    pub mem: Seq<Instr>,
    pub ip: nat,
    pub out: Seq<u8>,
}

/// What one step of the machine can yield: a next state, orderly completion
/// (the instruction pointer reached or passed the end of instruction
/// memory), or a runtime fault together with the state at the fault.
#[verifier::ext_equal]
pub ghost enum StepResult {
    Running(MachineState),
    Done(MachineState),
    Failed(MachineState, VmError),
}

/// The bytes `PRINT` appends for the value `n`: one space, then `n` in
/// decimal.
pub open spec fn print_bytes(n: usize) -> Seq<u8> {
    seq![32u8] + dec_digits(n as nat)
}

/// The effect of one already-fetched instruction on state `s` (the
/// instruction pointer has been advanced past it). A pop of an empty stack
/// fails with `StackUnderflow` and a zero divisor fails with
/// `DivisionByZero`; the state reported with a fault keeps whatever pops
/// succeeded before it, and a fault never touches instruction memory.
pub open spec fn step_ins(s: MachineState, ins: Instr) -> StepResult {
    match ins {
        Instr::NOP => StepResult::Running(s),
        Instr::DUP => if s.data.len() == 0 {
            StepResult::Failed(s, VmError::StackUnderflow)
        } else {
            StepResult::Running(MachineState { data: s.data.push(s.data.last()), ..s })
        },
        Instr::DROP => if s.data.len() == 0 {
            StepResult::Failed(s, VmError::StackUnderflow)
        } else {
            StepResult::Running(MachineState { data: s.data.drop_last(), ..s })
        },
        Instr::SWAP => if s.data.len() == 0 {
            StepResult::Failed(s, VmError::StackUnderflow)
        } else if s.data.len() == 1 {
            StepResult::Failed(
                MachineState { data: s.data.drop_last(), ..s },
                VmError::StackUnderflow,
            )
        } else {
            StepResult::Running(
                MachineState {
                    data: s.data.drop_last().drop_last().push(s.data.last()).push(
                        s.data[s.data.len() - 2],
                    ),
                    ..s
                },
            )
        },
        Instr::ADD => step_arith(s, Instr::ADD),
        Instr::SUB => step_arith(s, Instr::SUB),
        Instr::MUL => step_arith(s, Instr::MUL),
        Instr::DIV => step_arith(s, Instr::DIV),
        Instr::IMM(n) => StepResult::Running(MachineState { data: s.data.push(n), ..s }),
        Instr::CALL => {
            let pushed = MachineState { call: s.call.push(s.ip as usize), ..s };
            if s.data.len() == 0 {
                StepResult::Failed(pushed, VmError::StackUnderflow)
            } else {
                StepResult::Running(
                    MachineState {
                        data: pushed.data.drop_last(),
                        ip: pushed.data.last() as nat,
                        ..pushed
                    },
                )
            }
        },
        Instr::JUMP => if s.data.len() == 0 {
            StepResult::Failed(s, VmError::StackUnderflow)
        } else {
            StepResult::Running(
                MachineState { data: s.data.drop_last(), ip: s.data.last() as nat, ..s },
            )
        },
        Instr::RET => if s.call.len() == 0 {
            StepResult::Failed(s, VmError::StackUnderflow)
        } else {
            StepResult::Running(
                MachineState { call: s.call.drop_last(), ip: s.call.last() as nat, ..s },
            )
        },
        Instr::PRINT => if s.data.len() == 0 {
            StepResult::Failed(s, VmError::StackUnderflow)
        } else {
            StepResult::Running(
                MachineState {
                    data: s.data.drop_last(),
                    out: s.out + print_bytes(s.data.last()),
                    ..s
                },
            )
        },
    }
}

/// The value an arithmetic opcode leaves for operands `a` (below) and `b`
/// (on top). Addition, subtraction and multiplication wrap around `usize`;
/// division is meaningful only for a nonzero divisor.
pub open spec fn arith_val(ins: Instr, a: usize, b: usize) -> usize {
    match ins {
        Instr::ADD => vstd::wrapping::usize_specs::wrapping_add(a, b),
        Instr::SUB => vstd::wrapping::usize_specs::wrapping_sub(a, b),
        Instr::MUL => vstd::wrapping::usize_specs::wrapping_mul(a, b),
        Instr::DIV => (a as int / b as int) as usize,
        _ => 0,
    }
}

/// The shared shape of the four arithmetic opcodes: pop `b`, pop `a`, push
/// the result. With fewer than two operands the pops that succeed stay
/// popped and the step fails with `StackUnderflow`; `DIV` with a zero
/// divisor pops both operands and fails with `DivisionByZero`.
pub open spec fn step_arith(s: MachineState, ins: Instr) -> StepResult {
    if s.data.len() == 0 {
        StepResult::Failed(s, VmError::StackUnderflow)
    } else if s.data.len() == 1 {
        StepResult::Failed(MachineState { data: s.data.drop_last(), ..s }, VmError::StackUnderflow)
    } else {
        let b = s.data.last();
        let a = s.data[s.data.len() - 2];
        let popped = MachineState { data: s.data.drop_last().drop_last(), ..s };
        if ins is DIV && b == 0 {
            StepResult::Failed(popped, VmError::DivisionByZero)
        } else {
            StepResult::Running(MachineState { data: popped.data.push(arith_val(ins, a, b)), ..s })
        }
    }
}

/// One step of the machine: completion once the instruction pointer has
/// reached or passed the end of instruction memory, otherwise fetch,
/// advance, and apply the fetched instruction.
pub open spec fn step(s: MachineState) -> StepResult {
    if s.ip >= s.mem.len() {
        StepResult::Done(s)
    } else {
        step_ins(MachineState { ip: s.ip + 1, ..s }, s.mem[s.ip as int])
    }
}

/// `n` steps of the machine from `s`; completion and faults are absorbing.
pub open spec fn step_n(s: MachineState, n: nat) -> StepResult
    decreases n,
{
    if n == 0 {
        StepResult::Running(s)
    } else {
        match step_n(s, (n - 1) as nat) {
            StepResult::Running(t) => step(t),
            r => r,
        }
    }
}

/// Once the machine has halted — completed or faulted — further steps change
/// nothing, so the halting outcome reached from a state is unique.
pub proof fn lemma_halt_stable(s: MachineState, m: nat, n: nat)
    requires
        m <= n,
        !(step_n(s, m) is Running),
    ensures
        step_n(s, n) == step_n(s, m),
    decreases n,
{
    if m < n {
        lemma_halt_stable(s, m, (n - 1) as nat);
    }
}

/// Pushing `a` and `b` in order and applying `ADD`, `SUB` or `MUL` completes
/// and leaves exactly the wrapping sum, difference or product of `a` and `b`
/// on top of whatever data stack the machine started with.
pub proof fn lemma_binop_program(s: MachineState, a: usize, b: usize, op: Instr)
    requires
        s.ip == s.mem.len(),
        op is ADD || op is SUB || op is MUL,
    ensures
        ({
            let prog = seq![Instr::IMM(a), Instr::IMM(b), op];
            let e = MachineState { mem: s.mem + prog, ..s };
            step_n(e, 4) == StepResult::Done(
                MachineState {
                    mem: s.mem + prog,
                    ip: s.ip + 3,
                    data: s.data.push(arith_val(op, a, b)),
                    ..s
                },
            )
        }),
{
    let prog = seq![Instr::IMM(a), Instr::IMM(b), op];
    let e = MachineState { mem: s.mem + prog, ..s };
    let s1 = MachineState { ip: s.ip + 1, data: s.data.push(a), ..e };
    let s2 = MachineState { ip: s.ip + 2, data: s.data.push(a).push(b), ..e };
    let s3 = MachineState { ip: s.ip + 3, data: s.data.push(arith_val(op, a, b)), ..e };
    assert(e.mem[e.ip as int] == Instr::IMM(a));
    assert(step(e) == StepResult::Running(s1)) by {
        assert((MachineState { ip: e.ip + 1, ..e }).data.push(a) =~= s1.data);
        assert(step_ins(MachineState { ip: e.ip + 1, ..e }, Instr::IMM(a))
            == StepResult::Running(s1));
    }
    assert(e.mem[s1.ip as int] == Instr::IMM(b));
    assert(step(s1) == StepResult::Running(s2)) by {
        assert(step_ins(MachineState { ip: s1.ip + 1, ..s1 }, Instr::IMM(b))
            == StepResult::Running(s2));
    }
    assert(e.mem[s2.ip as int] == op);
    assert(step(s2) == StepResult::Running(s3)) by {
        let fetched = MachineState { ip: s2.ip + 1, ..s2 };
        assert(fetched.data.len() >= 2);
        assert(fetched.data.last() == b);
        assert(fetched.data[fetched.data.len() - 2] == a);
        assert(fetched.data.drop_last().drop_last() =~= s.data);
        assert(step_arith(fetched, op) == StepResult::Running(s3)) by {
            assert(fetched.data.drop_last().drop_last().push(arith_val(op, a, b)) =~= s3.data);
        }
    }
    assert(s3.ip == e.mem.len());
    assert(step(s3) == StepResult::Done(s3));
    assert(step_n(e, 0) == StepResult::Running(e));
    assert(step_n(e, 1) == StepResult::Running(s1));
    assert(step_n(e, 2) == StepResult::Running(s2));
    assert(step_n(e, 3) == StepResult::Running(s3));
    assert(step_n(e, 4) == StepResult::Done(s3));
}

/// `DUP` followed by `DROP` completes and leaves the data stack exactly as
/// it was before the `DUP` (which needs one value to duplicate).
pub proof fn lemma_dup_drop_program(s: MachineState)
    requires
        s.ip == s.mem.len(),
        s.data.len() > 0,
    ensures
        ({
            let prog = seq![Instr::DUP, Instr::DROP];
            let e = MachineState { mem: s.mem + prog, ..s };
            step_n(e, 3) == StepResult::Done(
                MachineState { mem: s.mem + prog, ip: s.ip + 2, ..s },
            )
        }),
{
    let prog = seq![Instr::DUP, Instr::DROP];
    let e = MachineState { mem: s.mem + prog, ..s };
    let s1 = MachineState { ip: s.ip + 1, data: s.data.push(s.data.last()), ..e };
    let s2 = MachineState { ip: s.ip + 2, ..e };
    assert(e.mem[e.ip as int] == Instr::DUP);
    assert(step(e) == StepResult::Running(s1)) by {
        assert(step_ins(MachineState { ip: e.ip + 1, ..e }, Instr::DUP) == StepResult::Running(
            s1,
        ));
    }
    assert(e.mem[s1.ip as int] == Instr::DROP);
    assert(step(s1) == StepResult::Running(s2)) by {
        assert(s1.data.drop_last() =~= s.data);
        assert(step_ins(MachineState { ip: s1.ip + 1, ..s1 }, Instr::DROP) == StepResult::Running(
            s2,
        ));
    }
    assert(s2.ip == e.mem.len());
    assert(step_n(e, 0) == StepResult::Running(e));
    assert(step_n(e, 1) == StepResult::Running(s1));
    assert(step_n(e, 2) == StepResult::Running(s2));
    assert(step_n(e, 3) == StepResult::Done(s2));
}

/// `SWAP` twice completes and is the identity on the data stack (which needs
/// the two values the swaps exchange).
pub proof fn lemma_swap_swap_program(s: MachineState)
    requires
        s.ip == s.mem.len(),
        s.data.len() >= 2,
    ensures
        ({
            let prog = seq![Instr::SWAP, Instr::SWAP];
            let e = MachineState { mem: s.mem + prog, ..s };
            step_n(e, 3) == StepResult::Done(
                MachineState { mem: s.mem + prog, ip: s.ip + 2, ..s },
            )
        }),
{
    let prog = seq![Instr::SWAP, Instr::SWAP];
    let e = MachineState { mem: s.mem + prog, ..s };
    let core = s.data.drop_last().drop_last();
    let b = s.data.last();
    let a = s.data[s.data.len() - 2];
    let s1 = MachineState { ip: s.ip + 1, data: core.push(b).push(a), ..e };
    let s2 = MachineState { ip: s.ip + 2, ..e };
    assert(e.mem[e.ip as int] == Instr::SWAP);
    assert(step(e) == StepResult::Running(s1)) by {
        assert(step_ins(MachineState { ip: e.ip + 1, ..e }, Instr::SWAP) == StepResult::Running(
            s1,
        ));
    }
    assert(e.mem[s1.ip as int] == Instr::SWAP);
    assert(step(s1) == StepResult::Running(s2)) by {
        assert(s1.data.last() == a);
        assert(s1.data[s1.data.len() - 2] == b);
        assert(s1.data.drop_last().drop_last() =~= core);
        assert(core.push(a).push(b) =~= s.data);
        assert(step_ins(MachineState { ip: s1.ip + 1, ..s1 }, Instr::SWAP) == StepResult::Running(
            s2,
        ));
    }
    assert(s2.ip == e.mem.len());
    assert(step_n(e, 0) == StepResult::Running(e));
    assert(step_n(e, 1) == StepResult::Running(s1));
    assert(step_n(e, 2) == StepResult::Running(s2));
    assert(step_n(e, 3) == StepResult::Done(s2));
}

} // verus!
