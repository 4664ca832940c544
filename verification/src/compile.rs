//! The compiler: dictionary lookup, token resolution, the three-mode state
//! machine over one token, and line compilation. Every exec function is
//! stated against a spec transition function, so a whole line's effect on
//! the dictionary, instruction memory and transient output is pinned down.
use crate::instr::CompileMode;
use crate::instr::Instr;
use crate::instr::VmError;
use crate::instr::Word;
use crate::instr::WordView;
use crate::text::dec_value;
use crate::text::is_numeric_token;
use crate::text::numeric_body;
use crate::text::parse_usize;
use crate::text::str_eq;
use crate::vm::VM;
use vstd::prelude::*;

verus! {

/// The first dictionary entry with the given name, scanning oldest-first.
/// The search runs front to back and stops at the first match, so a later
/// entry never shadows an earlier one of the same name: a user word that
/// reuses a built-in name is unreachable. Whether that is the most useful
/// shadowing rule is an open question; this fixed order is the contract.
pub open spec fn find_word(words: Seq<WordView>, name: Seq<char>) -> Option<WordView>
    decreases words.len(),
{
    if words.len() == 0 {
        None
    } else if words[0].name == name {
        Some(words[0])
    } else {
        find_word(words.drop_first(), name)
    }
}

/// What a token compiles to: the body of the first dictionary entry with
/// that name; otherwise, for a numeric token whose value fits in `usize`, a
/// single push of that value; otherwise nothing.
pub open spec fn resolve_token(words: Seq<WordView>, token: Seq<char>) -> Option<Seq<Instr>> {
    match find_word(words, token) {
        Some(w) => Some(w.body),
        None => if is_numeric_token(token) && dec_value(numeric_body(token)) <= usize::MAX {
            Some(seq![Instr::IMM(dec_value(numeric_body(token)) as usize)])
        } else {
            None
        },
    }
}

/// The compiler's persistent state: its mode, the comment flag, the
/// dictionary, and instruction memory (where definition bodies accumulate).
#[verifier::ext_equal]
pub ghost struct CompState {
    pub mode: CompileMode,
    pub in_comment: bool,
    pub words: Seq<WordView>,
    pub mem: Seq<Instr>,
}

/// The outcome of compiling one token or one line: the compiler state
/// afterwards, the instructions emitted into the transient output, and the
/// text of the offending token when one failed to compile.
#[verifier::ext_equal]
pub ghost struct CompOutcome {
    pub st: CompState,
    pub emit: Seq<Instr>,
    pub err: Option<Seq<char>>,
}

/// The effect of one token on the compiler. Comment handling comes first and
/// is independent of mode: `(` opens a comment, `)` closes one, and anything
/// inside is discarded. Outside comments, top-level tokens other than `:`
/// resolve into the transient output; `:` expects a name next; the name
/// becomes a new entry whose body pushes the current end of instruction
/// memory and calls it; body tokens resolve into instruction memory, and `;`
/// (which resolves to `RET` like any word) also closes the definition.
pub open spec fn compile_token_spec(st: CompState, token: Seq<char>) -> CompOutcome {
    if st.in_comment {
        if token == ")"@ {
            CompOutcome {
                st: CompState { in_comment: false, ..st },
                emit: Seq::empty(),
                err: None,
            }
        } else {
            CompOutcome { st, emit: Seq::empty(), err: None }
        }
    } else if token == "("@ {
        CompOutcome { st: CompState { in_comment: true, ..st }, emit: Seq::empty(), err: None }
    } else {
        match st.mode {
            CompileMode::TopLevel => {
                if token == ":"@ {
                    CompOutcome {
                        st: CompState { mode: CompileMode::Definition, ..st },
                        emit: Seq::empty(),
                        err: None,
                    }
                } else {
                    match resolve_token(st.words, token) {
                        Some(body) => CompOutcome { st, emit: body, err: None },
                        None => CompOutcome { st, emit: Seq::empty(), err: Some(token) },
                    }
                }
            },
            CompileMode::Definition => CompOutcome {
                st: CompState {
                    mode: CompileMode::DefinitionBody,
                    words: st.words.push(
                        WordView {
                            name: token,
                            body: seq![Instr::IMM(st.mem.len() as usize), Instr::CALL],
                        },
                    ),
                    ..st
                },
                emit: Seq::empty(),
                err: None,
            },
            CompileMode::DefinitionBody => {
                match resolve_token(st.words, token) {
                    Some(body) => CompOutcome {
                        st: CompState {
                            mem: st.mem + body,
                            mode: if token == ";"@ {
                                CompileMode::TopLevel
                            } else {
                                CompileMode::DefinitionBody
                            },
                            ..st
                        },
                        emit: Seq::empty(),
                        err: None,
                    },
                    None => CompOutcome { st, emit: Seq::empty(), err: Some(token) },
                }
            },
        }
    }
}

/// The effect of a token sequence: tokens compile left to right, emissions
/// concatenate, and the first token that fails to compile ends the line with
/// everything compiled before it kept.
pub open spec fn compile_tokens_spec(st: CompState, toks: Seq<Seq<char>>) -> CompOutcome
    decreases toks.len(),
{
    if toks.len() == 0 {
        CompOutcome { st, emit: Seq::empty(), err: None }
    } else {
        let first = compile_token_spec(st, toks[0]);
        match first.err {
            Some(_) => first,
            None => {
                let rest = compile_tokens_spec(first.st, toks.drop_first());
                CompOutcome { st: rest.st, emit: first.emit + rest.emit, err: rest.err }
            },
        }
    }
}

/// A token separator: ASCII whitespace.
pub open spec fn is_forth_space(c: char) -> bool {
    c == ' ' || c == '\t' || c == '\n' || c == '\r' || c == '\x0c'
}

/// The length of the token at the head of `s`: the number of characters
/// before the first separator (zero when `s` starts with one or is empty).
pub open spec fn token_end(s: Seq<char>) -> nat
    decreases s.len(),
{
    if s.len() == 0 || is_forth_space(s[0]) {
        0
    } else {
        1 + token_end(s.drop_first())
    }
}

/// The tokens of a line: maximal runs of non-separator characters, in order;
/// separators only delimit and empty tokens do not arise.
pub open spec fn tokens_of(s: Seq<char>) -> Seq<Seq<char>>
    decreases s.len() via tokens_of_decreases
{
    if s.len() == 0 {
        Seq::empty()
    } else if is_forth_space(s[0]) {
        tokens_of(s.drop_first())
    } else {
        seq![s.take(token_end(s) as int)] + tokens_of(s.skip(token_end(s) as int))
    }
}

#[via_fn]
proof fn tokens_of_decreases(s: Seq<char>) {
    if s.len() > 0 && !is_forth_space(s[0]) {
        lemma_token_end_le(s);
        assert(token_end(s) == 1 + token_end(s.drop_first()));
    }
}

/// The head token ends within the line.
proof fn lemma_token_end_le(s: Seq<char>)
    ensures
        token_end(s) <= s.len(),
    decreases s.len(),
{
    if s.len() > 0 && !is_forth_space(s[0]) {
        lemma_token_end_le(s.drop_first());
    }
}

/// `token_end` is the first index that holds a separator, or the length when
/// none does.
proof fn lemma_token_end_eq(s: Seq<char>, j: int)
    requires
        0 <= j <= s.len(),
        forall|m: int| 0 <= m < j ==> !is_forth_space(#[trigger] s[m]),
        j < s.len() ==> is_forth_space(s[j]),
    ensures
        token_end(s) == j,
    decreases j,
{
    if j > 0 {
        lemma_token_end_eq(s.drop_first(), j - 1);
    }
}

/// `find_word` returns the entry at the first index whose name matches.
proof fn lemma_find_word_hit(words: Seq<WordView>, name: Seq<char>, i: int)
    requires
        0 <= i < words.len(),
        words[i].name == name,
        forall|j: int| 0 <= j < i ==> words[j].name != name,
    ensures
        find_word(words, name) == Some(words[i]),
    decreases i,
{
    if i > 0 {
        lemma_find_word_hit(words.drop_first(), name, i - 1);
    }
}

/// With no matching name anywhere, `find_word` finds nothing.
proof fn lemma_find_word_miss(words: Seq<WordView>, name: Seq<char>)
    requires
        forall|j: int| 0 <= j < words.len() ==> words[j].name != name,
    ensures
        find_word(words, name) is None,
    decreases words.len(),
{
    if words.len() > 0 {
        lemma_find_word_miss(words.drop_first(), name);
    }
}

impl VM {
    /// The compiler's state inside this machine.
    pub open spec fn comp(&self) -> CompState {
        CompState {
            mode: self.compile_mode,
            in_comment: self.in_comment,
            words: self.words_view(),
            mem: self.instruction_memory@,
        }
    }

    /// Scans the dictionary oldest-first and returns the first entry whose
    /// name is `token`, exactly as `find_word` describes.
    pub fn lookup_word(&self, token: &str) -> (r: Option<&Word>)
        ensures
            match r {
                Some(w) => find_word(self.words_view(), token@) == Some(w@),
                None => find_word(self.words_view(), token@) is None,
            },
    {
        let n = self.words.len();
        let mut i: usize = 0;
        while i < n
            invariant
                0 <= i <= n,
                n == self.words@.len(),
                forall|j: int| 0 <= j < i ==> self.words_view()[j].name != token@,
            decreases n - i,
        {
            if str_eq(self.words[i].name.as_str(), token) {
                proof {
                    lemma_find_word_hit(self.words_view(), token@, i as int);
                }
                return Some(&self.words[i]);
            }
            i = i + 1;
        }
        proof {
            lemma_find_word_miss(self.words_view(), token@);
        }
        None
    }

    /// Resolves one token to the instructions it stands for — a word's body,
    /// or one push for a numeric token — exactly as `resolve_token`
    /// describes; a token that is neither fails with `InvalidToken`.
    pub fn token_to_instruction_seq(&self, token: &str) -> (r: Result<Vec<Instr>, VmError>)
        ensures
            match r {
                Ok(v) => resolve_token(self.words_view(), token@) == Some(v@),
                Err(e) => resolve_token(self.words_view(), token@) is None && (e matches VmError::InvalidToken(t) && t@ == token@),
            },
    {
        match self.lookup_word(token) {
            Some(w) => {
                let v = w.body.clone();
                proof {
                    assert(v@ =~= w.body@);
                }
                Ok(v)
            },
            None => {
                match parse_usize(token) {
                    Some(num) => {
                        let mut v: Vec<Instr> = Vec::new();
                        v.push(Instr::IMM(num));
                        proof {
                            assert(v@ =~= seq![Instr::IMM(num)]);
                        }
                        Ok(v)
                    },
                    None => Err(VmError::InvalidToken(token.to_owned())),
                }
            },
        }
    }

    /// Compiles one token, exactly as `compile_token_spec` describes: the
    /// stacks, the instruction pointer and the output are untouched; the
    /// dictionary, instruction memory, mode and comment flag move to the spec
    /// state; emitted instructions are appended to `ins_seq`; and a token
    /// that resolves to nothing fails with `InvalidToken` and changes
    /// nothing.
    pub fn compile_token(&mut self, token: &str, ins_seq: &mut Vec<Instr>) -> (r: Result<
        (),
        VmError,
    >)
        ensures
            final(self).data_stack == old(self).data_stack,
            final(self).call_stack == old(self).call_stack,
            final(self).instruction_pointer == old(self).instruction_pointer,
            final(self).output == old(self).output,
            ({
                let outcome = compile_token_spec(old(self).comp(), token@);
                final(self).comp() == outcome.st && match r {
                    Ok(()) => outcome.err is None && final(ins_seq)@ == old(ins_seq)@
                        + outcome.emit,
                    Err(e) => outcome.err == Some(token@) && (e matches VmError::InvalidToken(t)
                        && t@ == token@) && final(ins_seq)@ == old(ins_seq)@,
                }
            }),
    {
        if self.in_comment {
            if str_eq(token, ")") {
                self.in_comment = false;
            }
            proof {
                assert(self.comp() =~= compile_token_spec(old(self).comp(), token@).st);
                assert(ins_seq@ =~= ins_seq@ + Seq::<Instr>::empty());
            }
            return Ok(());
        }
        if str_eq(token, "(") {
            self.in_comment = true;
            proof {
                assert(self.comp() =~= compile_token_spec(old(self).comp(), token@).st);
                assert(ins_seq@ =~= ins_seq@ + Seq::<Instr>::empty());
            }
            return Ok(());
        }
        match self.compile_mode {
            CompileMode::TopLevel => {
                if str_eq(token, ":") {
                    self.compile_mode = CompileMode::Definition;
                    proof {
                        assert(self.comp() =~= compile_token_spec(old(self).comp(), token@).st);
                        assert(ins_seq@ =~= ins_seq@ + Seq::<Instr>::empty());
                    }
                    return Ok(());
                }
                match self.token_to_instruction_seq(token) {
                    Ok(body) => {
                        let mut k: usize = 0;
                        while k < body.len()
                            invariant
                                k <= body@.len(),
                                ins_seq@ == old(ins_seq)@ + body@.subrange(0, k as int),
                            decreases body@.len() - k,
                        {
                            proof {
                                assert(ins_seq@.push(body@[k as int]) =~= old(ins_seq)@
                                    + body@.subrange(0, k + 1));
                            }
                            ins_seq.push(body[k]);
                            k = k + 1;
                        }
                        proof {
                            assert(body@.subrange(0, body@.len() as int) =~= body@);
                            assert(self.comp() =~= compile_token_spec(old(self).comp(), token@).st);
                        }
                        Ok(())
                    },
                    Err(e) => {
                        proof {
                            assert(self.comp() =~= compile_token_spec(old(self).comp(), token@).st);
                        }
                        Err(e)
                    },
                }
            },
            CompileMode::Definition => {
                let addr = self.instruction_memory.len();
                let mut body: Vec<Instr> = Vec::new();
                body.push(Instr::IMM(addr));
                body.push(Instr::CALL);
                let w = Word { name: token.to_owned(), body };
                proof {
                    assert(w@.body =~= seq![Instr::IMM(addr), Instr::CALL]);
                }
                self.words.push(w);
                self.compile_mode = CompileMode::DefinitionBody;
                proof {
                    assert(self.words_view() =~= old(self).words_view().push(
                        WordView { name: token@, body: seq![Instr::IMM(addr), Instr::CALL] },
                    ));
                    assert(self.comp() =~= compile_token_spec(old(self).comp(), token@).st);
                    assert(ins_seq@ =~= ins_seq@ + Seq::<Instr>::empty());
                }
                Ok(())
            },
            CompileMode::DefinitionBody => {
                match self.token_to_instruction_seq(token) {
                    Ok(body) => {
                        let mut k: usize = 0;
                        while k < body.len()
                            invariant
                                k <= body@.len(),
                                self.instruction_memory@ == old(self).instruction_memory@
                                    + body@.subrange(0, k as int),
                                self.data_stack == old(self).data_stack,
                                self.call_stack == old(self).call_stack,
                                self.instruction_pointer == old(self).instruction_pointer,
                                self.output == old(self).output,
                                self.words == old(self).words,
                                self.compile_mode == old(self).compile_mode,
                                self.in_comment == old(self).in_comment,
                            decreases body@.len() - k,
                        {
                            proof {
                                assert(self.instruction_memory@.push(body@[k as int])
                                    =~= old(self).instruction_memory@ + body@.subrange(0, k + 1));
                            }
                            let ins = body[k];
                            self.instruction_memory.push(ins);
                            k = k + 1;
                        }
                        if str_eq(token, ";") {
                            self.compile_mode = CompileMode::TopLevel;
                        }
                        proof {
                            assert(body@.subrange(0, body@.len() as int) =~= body@);
                            assert(self.comp() =~= compile_token_spec(old(self).comp(), token@).st);
                            assert(ins_seq@ =~= ins_seq@ + Seq::<Instr>::empty());
                        }
                        Ok(())
                    },
                    Err(e) => {
                        proof {
                            assert(self.comp() =~= compile_token_spec(old(self).comp(), token@).st);
                        }
                        Err(e)
                    },
                }
            },
        }
    }

    /// Compiles one line: tokenizes on ASCII whitespace and compiles each
    /// token in order, exactly as `compile_tokens_spec` over `tokens_of`
    /// describes. The first failing token ends the line with the error;
    /// everything compiled before it — state changes and emitted
    /// instructions alike — stays committed.
    pub fn compile_line(&mut self, line: &str, ins_seq: &mut Vec<Instr>) -> (r: Result<
        (),
        VmError,
    >)
        ensures
            final(self).data_stack == old(self).data_stack,
            final(self).call_stack == old(self).call_stack,
            final(self).instruction_pointer == old(self).instruction_pointer,
            final(self).output == old(self).output,
            ({
                let outcome = compile_tokens_spec(old(self).comp(), tokens_of(line@));
                final(self).comp() == outcome.st && final(ins_seq)@ == old(ins_seq)@ + outcome.emit
                    && match r {
                    Ok(()) => outcome.err is None,
                    Err(e) => outcome.err is Some && (e matches VmError::InvalidToken(t) && t@
                        == outcome.err->Some_0),
                }
            }),
    {
        let n = line.unicode_len();
        proof {
            assert(line@.skip(0) =~= line@);
            assert(ins_seq@.skip(old(ins_seq)@.len() as int) =~= Seq::<Instr>::empty());
            assert(ins_seq@.subrange(0, old(ins_seq)@.len() as int) =~= old(ins_seq)@);
            assert(Seq::<Instr>::empty() + compile_tokens_spec(
                self.comp(),
                tokens_of(line@),
            ).emit =~= compile_tokens_spec(self.comp(), tokens_of(line@)).emit);
        }
        let mut i: usize = 0;
        while i < n
            invariant
                i <= n,
                n == line@.len(),
                self.data_stack == old(self).data_stack,
                self.call_stack == old(self).call_stack,
                self.instruction_pointer == old(self).instruction_pointer,
                self.output == old(self).output,
                old(ins_seq)@.len() <= ins_seq@.len(),
                ins_seq@.subrange(0, old(ins_seq)@.len() as int) == old(ins_seq)@,
                ({
                    let total = compile_tokens_spec(old(self).comp(), tokens_of(line@));
                    let rest = compile_tokens_spec(
                        self.comp(),
                        tokens_of(line@.skip(i as int)),
                    );
                    total.st == rest.st && total.err == rest.err && total.emit == ins_seq@.skip(
                        old(ins_seq)@.len() as int,
                    ) + rest.emit
                }),
            decreases n - i,
        {
            let c = line.get_char(i);
            if space_char(c) {
                proof {
                    assert(line@.skip(i as int).drop_first() =~= line@.skip(i + 1));
                }
                i = i + 1;
            } else {
                let mut j = i + 1;
                while j < n && !space_char(line.get_char(j))
                    invariant
                        i < j <= n,
                        n == line@.len(),
                        forall|m: int| i <= m < j ==> !is_forth_space(#[trigger] line@[m]),
                    decreases n - j,
                {
                    j = j + 1;
                }
                let token = line.substring_char(i, j);
                proof {
                    let tail = line@.skip(i as int);
                    assert(forall|m: int|
                        0 <= m < j - i ==> !is_forth_space(#[trigger] tail[m]));
                    lemma_token_end_eq(tail, j - i);
                    assert(tail.take(j - i) =~= token@);
                    assert(tail.skip(j - i) =~= line@.skip(j as int));
                    assert(tokens_of(tail) == seq![token@] + tokens_of(line@.skip(j as int)));
                    assert((seq![token@] + tokens_of(line@.skip(j as int))).drop_first()
                        =~= tokens_of(line@.skip(j as int)));
                    assert((seq![token@] + tokens_of(line@.skip(j as int)))[0] == token@);
                }
                let ghost emitted_before = ins_seq@.skip(old(ins_seq)@.len() as int);
                let ghost first = compile_token_spec(self.comp(), token@);
                match self.compile_token(token, ins_seq) {
                    Ok(()) => {
                        proof {
                            assert(ins_seq@.skip(old(ins_seq)@.len() as int) =~= emitted_before
                                + first.emit);
                            assert(ins_seq@.subrange(0, old(ins_seq)@.len() as int)
                                =~= old(ins_seq)@);
                            assert(emitted_before + (first.emit + compile_tokens_spec(
                                self.comp(),
                                tokens_of(line@.skip(j as int)),
                            ).emit) =~= (emitted_before + first.emit) + compile_tokens_spec(
                                self.comp(),
                                tokens_of(line@.skip(j as int)),
                            ).emit);
                        }
                        i = j;
                    },
                    Err(e) => {
                        proof {
                            assert(ins_seq@ =~= old(ins_seq)@ + emitted_before);
                            assert(emitted_before =~= emitted_before + Seq::<Instr>::empty());
                        }
                        return Err(e);
                    },
                }
            }
        }
        proof {
            assert(line@.skip(n as int) =~= Seq::<char>::empty());
            assert(ins_seq@ =~= old(ins_seq)@ + ins_seq@.skip(old(ins_seq)@.len() as int));
            assert(ins_seq@.skip(old(ins_seq)@.len() as int) =~= ins_seq@.skip(
                old(ins_seq)@.len() as int,
            ) + Seq::<Instr>::empty());
        }
        Ok(())
    }
}

/// True for the separators `tokens_of` splits on.
fn space_char(c: char) -> (r: bool)
    ensures
        r == is_forth_space(c),
{
    c == ' ' || c == '\t' || c == '\n' || c == '\r' || c == '\x0c'
}

} // verus!
