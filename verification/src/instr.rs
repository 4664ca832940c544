//! The instruction set of the machine, the dictionary entries that name
//! instruction sequences, the compiler's mode, and the error type shared by
//! compilation and execution.
use vstd::prelude::*;

verus! {

/// One opcode of the machine. `IMM` is the only opcode with a payload: the
/// value it pushes onto the data stack. Instructions are plain values, copied
/// freely between the compiler's output, word bodies and instruction memory.
#[allow(non_camel_case_types)]
#[derive(Copy, Clone, Debug, PartialEq, Eq, Structural)]
pub enum Instr {
    /// No effect.
    NOP,
    /// Duplicate the top of the data stack.
    DUP,
    /// Discard the top of the data stack.
    DROP,
    /// Exchange the two topmost data-stack entries.
    SWAP,
    /// Pop b, pop a, push the wrapping sum a + b.
    ADD,
    /// Pop b, pop a, push the wrapping difference a - b.
    SUB,
    /// Pop b, pop a, push the wrapping product a * b.
    MUL,
    /// Pop b, pop a, push the quotient a / b; b must not be zero.
    DIV,
    /// Push the instruction pointer onto the call stack, then pop the data
    /// stack into the instruction pointer.
    CALL,
    /// Pop the data stack into the instruction pointer.
    JUMP,
    /// Pop the call stack into the instruction pointer.
    RET,
    /// Push the carried value onto the data stack.
    IMM(usize),
    /// Pop the data stack and append a space followed by the popped value in
    /// decimal to the output.
    PRINT,
}

/// A dictionary entry: a name bound to the instruction sequence the name
/// expands to. Entries are created at definition time and never changed.
pub struct Word {
    pub name: String,
    pub body: Vec<Instr>,
}

/// The mathematical content of a `Word`: its name and body as sequences.
#[verifier::ext_equal]
pub ghost struct WordView {
    pub name: Seq<char>,
    pub body: Seq<Instr>,
}

impl View for Word {
    type V = WordView;

    open spec fn view(&self) -> WordView {
        WordView { name: self.name@, body: self.body@ }
    }
}

/// The compiler's state machine over a line of source text.
#[derive(Copy, Clone, Debug, PartialEq, Eq, Structural)]
pub enum CompileMode {
    /// Outside any definition: tokens compile into the transient output.
    TopLevel,
    /// A `:` was seen: the next token names the word being defined.
    Definition,
    /// Inside a definition body: tokens compile into instruction memory.
    DefinitionBody,
}

/// Everything that can go wrong while compiling or running a line.
#[derive(Debug)]
pub enum VmError {
    /// A pop was attempted on an empty data or call stack.
    StackUnderflow,
    /// The token is neither a dictionary word nor a non-negative decimal
    /// number that fits in `usize`.
    InvalidToken(String),
    /// `DIV` found a zero divisor on top of the stack.
    DivisionByZero,
    /// Execution did not halt within the machine's step budget. The budget is
    /// `u64::MAX` steps, which no halting session reaches in practice; the
    /// variant exists so that a program that jumps in a cycle still gets an
    /// answer.
    StepLimit,
}

} // verus!
