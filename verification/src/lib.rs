//! A minimal stack-based virtual machine paired with an incremental,
//! line-oriented compiler for a Forth-like language. Each line of source text
//! is tokenized and compiled into a flat instruction sequence which the
//! machine then executes; `:` definitions extend the dictionary, so the
//! vocabulary grows while the session runs.
mod compile;
mod instr;
mod sem;
mod text;
mod vm;

pub use compile::CompOutcome;
pub use compile::CompState;
pub use compile::compile_token_spec;
pub use compile::compile_tokens_spec;
pub use compile::find_word;
pub use compile::is_forth_space;
pub use compile::resolve_token;
pub use compile::tokens_of;
pub use instr::CompileMode;
pub use instr::Instr;
pub use instr::VmError;
pub use instr::Word;
pub use instr::WordView;
pub use sem::MachineState;
pub use sem::StepResult;
pub use sem::arith_val;
pub use sem::lemma_binop_program;
pub use sem::lemma_dup_drop_program;
pub use sem::lemma_halt_stable;
pub use sem::lemma_swap_swap_program;
pub use sem::print_bytes;
pub use sem::step;
pub use sem::step_ins;
pub use sem::step_n;
pub use text::dec_digits;
pub use text::dec_value;
pub use text::is_numeric_token;
pub use text::numeric_body;
pub use vm::STEP_LIMIT;
pub use vm::VM;
pub use vm::builtin_words;
