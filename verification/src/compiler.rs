//! The parser/compiler: a single pass over the token stream that emits
//! bytecode directly into a growing chunk, with no syntax tree in between.
//!
//! Expressions are parsed by precedence climbing over the table in `rules`;
//! statements (`print`, expression statements, `bind` declarations) wrap the
//! expression parser. On a parse error the compiler resynchronizes at a
//! statement boundary and keeps going, so one pass can report several
//! independent errors; a scan error aborts the pass. A chunk is returned
//! only when no error at all was recorded.

use vstd::prelude::*;
use vstd::string::StringSliceAdditionalSpecFns;
use crate::chunk::{
    Chunk, OpCode, lemma_code_wf_consts_extend, lemma_code_wf_extend, spec_code_wf,
    spec_code_wf_from, spec_op_width, spec_opcode_byte,
};
use crate::err::CompilerError;
use crate::memory::{Memory, spec_intern, spec_seq_extends, spec_value_wf};
use crate::rules::{
    InfixFn, ParseRule, Precedence, PrefixFn, get_rule, lemma_infix_present, spec_get_rule,
    spec_prec_rank,
};
use crate::scanner::{
    ScanItem, Scanner, Token, TokenType, lemma_next_token_facts, spec_is_digit, spec_next_token,
};
use crate::text::{extend_bytes, extend_str, parse_i32, spec_dec_val};
use crate::value::{ObjectPointer, StringPointer, Type};

verus! {

/// What holds of any token the parser keeps: the span lies in the
/// source, the line is plausible, and literal tokens have the shape the
/// scanner gives them (a number is a nonempty digit run; a string includes
/// its two quotes).
pub open spec fn spec_token_sane(t: Token, src: Seq<u8>) -> bool {
    &&& t.start + t.len <= src.len()
    &&& t.line <= src.len() + 1
    &&& (t.id == TokenType::Number ==> t.len >= 1 && forall|j: int|
        t.start <= j < t.start + t.len ==> spec_is_digit(#[trigger] src[j]))
    &&& (t.id == TokenType::String ==> t.len >= 2)
}

/// Constant-pool values hold no dangling heap handles.
pub open spec fn spec_consts_wf(cs: Seq<Type>, heap_len: nat) -> bool {
    forall|i: int| 0 <= i < cs.len() ==> spec_value_wf(#[trigger] cs[i], heap_len)
}

/// The parser: the previous/current token pair, the scanner feeding it, and
/// the chunk being emitted into.
struct Parser {
    previous: Token,
    current: Token,
    scanner: Scanner,
    chunk: Chunk,
}

impl Parser {
    /// The source being compiled.
    spec fn src(&self) -> Seq<u8> {
        self.scanner.spec_source()
    }

    /// The scan-cursor part of this parser's state.
    spec fn cur_of(&self) -> ScanCur {
        ScanCur {
            pos: self.scanner.spec_pos(),
            line: self.scanner.spec_line(),
            at_end: self.scanner.spec_at_end(),
            previous: self.previous,
            current: self.current,
        }
    }

    /// How much input is left to consume; every token strictly shrinks it.
    spec fn measure(&self) -> int {
        self.scanner.spec_measure()
    }

    /// The lookahead is the end marker exactly when the scanner is done.
    spec fn synced(&self) -> bool {
        self.current.id == TokenType::EOF <==> self.scanner.spec_at_end()
    }

    /// Everything the parser maintains, except the lookahead/end agreement
    /// (which a scan error can break just before the compile aborts).
    spec fn wf_core(&self) -> bool {
        &&& self.scanner.wf()
        &&& self.src().len() < u32::MAX
        &&& spec_token_sane(self.previous, self.src())
        &&& spec_token_sane(self.current, self.src())
        &&& self.chunk.wf()
        &&& spec_code_wf(self.chunk.code@, self.chunk.constants@)
    }

    /// The full parser invariant.
    spec fn wf(&self) -> bool {
        self.wf_core() && self.synced()
    }

    /// A fresh parser over the source: placeholder tokens, empty chunk.
    fn new(source: &[u8]) -> (r: Self)
        requires
            source@.len() < u32::MAX,
        ensures
            r.wf_core(),
            r.src() == source@,
            !r.scanner.spec_at_end(),
            r.scanner.spec_pos() == 0,
            r.scanner.spec_line() == 1,
            r.current.id == TokenType::EOF,
            r.previous == (Token { id: TokenType::EOF, start: 0, len: 0, line: 0 }),
            r.current == (Token { id: TokenType::EOF, start: 0, len: 0, line: 0 }),
            r.chunk.code@.len() == 0,
            r.chunk.constants@.len() == 0,
    {
        Parser {
            previous: Token::default(),
            current: Token::default(),
            scanner: Scanner::new(source),
            chunk: Chunk::new(),
        }
    }

    /// Shifts the token pair: the lookahead becomes the previous token and
    /// the scanner yields the next lookahead. A scan error comes back as a
    /// compile error and aborts the pass.
    fn next(&mut self) -> (r: Result<(), CompilerError>)
        requires
            old(self).wf_core(),
            old(self).scanner.spec_at_end() ==> old(self).current.id == TokenType::EOF,
        ensures
            final(self).wf_core(),
            final(self).src() == old(self).src(),
            final(self).chunk == old(self).chunk,
            final(self).previous == old(self).current,
            final(self).measure() <= old(self).measure(),
            old(self).current.id != TokenType::EOF ==> final(self).measure() < old(
                self,
            ).measure(),
            (old(self).scanner.spec_at_end() ==> r is Ok && final(self).current == old(
                self,
            ).current && final(self).scanner.spec_at_end()),
            (r is Ok && !old(self).scanner.spec_at_end() ==> ({
                let o = spec_next_token(
                    old(self).src(),
                    old(self).scanner.spec_pos(),
                    old(self).scanner.spec_line(),
                    false,
                );
                o.item matches ScanItem::Tok { id, start, end, line } ==> final(self).current.id
                    == id
            })),
            (r is Err ==> (spec_next_token(
                old(self).src(),
                old(self).scanner.spec_pos(),
                old(self).scanner.spec_line(),
                old(self).scanner.spec_at_end(),
            ).item is Fail)),
            ({
                let (c1, ok) = spec_advance(old(self).src(), old(self).cur_of());
                final(self).cur_of() == c1 && (r is Ok <==> ok)
            }),
            match r {
                Ok(_) => final(self).synced(),
                Err(e) => {
                    &&& final(self).current == old(self).current
                    &&& e.spec_is_scan()
                    &&& (old(self).current.id != TokenType::EOF ==> final(self).synced())
                },
            },
    {
        proof {
            lemma_next_token_facts(
                self.scanner.spec_source(),
                self.scanner.spec_pos(),
                self.scanner.spec_line(),
                self.scanner.spec_at_end(),
            );
        }
        self.previous = self.current;
        match self.scanner.next() {
            None => {
                proof {
                    reveal(spec_scan_step);
                    assert(self.cur_of() =~= spec_advance(old(self).src(), old(self).cur_of()).0);
                }
                Ok(())
            },
            Some(Ok(token)) => {
                self.current = token;
                proof {
                    reveal(spec_scan_step);
                    assert(self.cur_of() =~= spec_advance(old(self).src(), old(self).cur_of()).0);
                }
                Ok(())
            },
            Some(Err(err)) => {
                proof {
                    reveal(spec_scan_step);
                    assert(self.cur_of() =~= spec_advance(old(self).src(), old(self).cur_of()).0);
                }
                Err(CompilerError::from_scan(err))
            },
        }
    }

    /// An error anchored at a given token: its context is the lexeme (or
    /// `at end` for the end marker), then the message.
    fn error_at<T>(&self, token: Token, message: &str) -> (r: Result<T, CompilerError>)
        requires
            spec_token_sane(token, self.src()),
        ensures
            r matches Err(e) && e.spec_message() == spec_error_message(
                self.src(),
                token,
                message.spec_bytes(),
            ) && e.spec_line() == token.line && !e.spec_is_scan(),
    {
        let mut out: Vec<u8> = Vec::new();
        match token.id {
            TokenType::EOF => {
                extend_str(&mut out, "at end");
            },
            _ => {
                extend_str(&mut out, "at '");
                let lex = self.scanner.source_slice(token.start, token.len);
                extend_bytes(&mut out, lex);
                extend_str(&mut out, "'");
            },
        }
        extend_str(&mut out, ": ");
        extend_str(&mut out, message);
        extend_str(&mut out, "\n");
        Err(CompilerError::new(out, token.line))
    }

    /// An error anchored at the lookahead.
    fn error_at_current<T>(&self, message: &str) -> (r: Result<T, CompilerError>)
        requires
            spec_token_sane(self.current, self.src()),
        ensures
            r matches Err(e) && e.spec_message() == spec_error_message(
                self.src(),
                self.current,
                message.spec_bytes(),
            ) && e.spec_line() == self.current.line && !e.spec_is_scan(),
    {
        self.error_at(self.current, message)
    }

    /// An error anchored at the previous token.
    fn error<T>(&self, message: &str) -> (r: Result<T, CompilerError>)
        requires
            spec_token_sane(self.previous, self.src()),
        ensures
            r matches Err(e) && e.spec_message() == spec_error_message(
                self.src(),
                self.previous,
                message.spec_bytes(),
            ) && e.spec_line() == self.previous.line && !e.spec_is_scan(),
    {
        self.error_at(self.previous, message)
    }

    /// Consumes the lookahead when it has the expected kind, else reports
    /// the given message at it.
    fn consume(&mut self, id: TokenType, message: &str) -> (r: Result<(), CompilerError>)
        requires
            old(self).wf(),
        ensures
            final(self).wf_core(),
            final(self).src() == old(self).src(),
            final(self).chunk == old(self).chunk,
            final(self).measure() <= old(self).measure(),
            match r {
                Ok(_) => {
                    &&& old(self).current.id == id
                    &&& final(self).synced()
                    &&& final(self).previous == old(self).current
                    &&& (id != TokenType::EOF ==> final(self).measure() < old(self).measure())
                },
                Err(e) => {
                    &&& (!e.spec_is_scan() ==> *final(self) == *old(self) && old(self).current.id
                        != id && e.spec_message() == spec_error_message(
                        old(self).src(),
                        old(self).current,
                        message.spec_bytes(),
                    ) && e.spec_line() == old(self).current.line)
                    &&& (e.spec_is_scan() ==> old(self).current.id == id && (id != TokenType::EOF
                        ==> final(self).measure() < old(self).measure()))
                },
            },
            ({
                let t = spec_consume_tok(old(self).src(), old(self).cur_of(), id);
                match r {
                    Ok(_) => t == (TriOut::Go { c: final(self).cur_of() }),
                    Err(e) => if e.spec_is_scan() {
                        t == (TriOut::Halt { c: final(self).cur_of() })
                    } else {
                        t == (TriOut::Miss { c: final(self).cur_of() })
                    },
                }
            }),
    {
        if self.current.id == id {
            self.next()?;
            return Ok(());
        }
        self.error_at_current(message)
    }

    /// Consumes the lookahead when it has the given kind; says whether it
    /// did.
    fn matches(&mut self, id: TokenType) -> (r: Result<bool, CompilerError>)
        requires
            old(self).wf(),
        ensures
            final(self).wf_core(),
            final(self).src() == old(self).src(),
            final(self).chunk == old(self).chunk,
            final(self).measure() <= old(self).measure(),
            (old(self).scanner.spec_at_end() ==> r is Ok && final(self).scanner.spec_at_end()
                && final(self).current == old(self).current),
            match r {
                Ok(hit) => {
                    &&& final(self).synced()
                    &&& if hit {
                        &&& old(self).current.id == id
                        &&& final(self).previous == old(self).current
                        &&& (id != TokenType::EOF ==> final(self).measure() < old(self).measure())
                    } else {
                        &&& old(self).current.id != id
                        &&& *final(self) == *old(self)
                    }
                },
                Err(e) => {
                    &&& e.spec_is_scan()
                    &&& old(self).current.id == id
                    &&& (id != TokenType::EOF ==> final(self).measure() < old(self).measure())
                },
            },
            ({
                let t = spec_match_tok(old(self).src(), old(self).cur_of(), id);
                match r {
                    Ok(hit) => if hit {
                        t == (TriOut::Go { c: final(self).cur_of() })
                    } else {
                        t == (TriOut::Miss { c: final(self).cur_of() })
                    },
                    Err(_) => t == (TriOut::Halt { c: final(self).cur_of() }),
                }
            }),
    {
        if self.current.id != id {
            return Ok(false);
        }
        self.next()?;
        Ok(true)
    }

    /// Appends one raw byte to the chunk, on the previous token's line. The
    /// instruction-level emitters below keep the code well-formed; this one
    /// is their building block.
    fn emit_byte(&mut self, byte: u8)
        requires
            old(self).chunk.wf(),
            old(self).previous.line <= u32::MAX,
        ensures
            final(self).chunk.wf(),
            final(self).chunk.code@ == old(self).chunk.code@.push(byte),
            final(self).chunk.constants == old(self).chunk.constants,
            final(self).scanner == old(self).scanner,
            final(self).previous == old(self).previous,
            final(self).current == old(self).current,
    {
        let line = self.previous.line as u32;
        self.chunk.write(byte, line);
    }

    /// Appends two raw bytes.
    fn emit_bytes(&mut self, byte1: u8, byte2: u8)
        requires
            old(self).chunk.wf(),
            old(self).previous.line <= u32::MAX,
        ensures
            final(self).chunk.wf(),
            final(self).chunk.code@ == old(self).chunk.code@.push(byte1).push(byte2),
            final(self).chunk.constants == old(self).chunk.constants,
            final(self).scanner == old(self).scanner,
            final(self).previous == old(self).previous,
            final(self).current == old(self).current,
    {
        self.emit_byte(byte1);
        self.emit_byte(byte2);
    }

    /// Emits one operand-less instruction.
    fn emit_op(&mut self, op: OpCode)
        requires
            old(self).wf_core(),
            spec_op_width(op) == 1,
        ensures
            final(self).wf_core(),
            final(self).synced() == old(self).synced(),
            final(self).chunk.code@ == old(self).chunk.code@.push(spec_opcode_byte(op)),
            final(self).chunk.constants == old(self).chunk.constants,
            final(self).scanner == old(self).scanner,
            final(self).previous == old(self).previous,
            final(self).current == old(self).current,
    {
        let b = op.to_byte();
        proof {
            let code = self.chunk.code@;
            let consts = self.chunk.constants@;
            assert(code.push(b) =~= code + seq![b]);
            assert((code + seq![b])[code.len() as int] == b);
            assert(spec_code_wf_from(code + seq![b], consts, code.len() as int + 1));
            assert(spec_code_wf_from(code + seq![b], consts, code.len() as int));
            lemma_code_wf_extend(code, consts, seq![b], 0);
        }
        self.emit_byte(b);
    }

    /// Emits two operand-less instructions (the desugared comparisons).
    fn emit_op_pair(&mut self, first: OpCode, second: OpCode)
        requires
            old(self).wf_core(),
            spec_op_width(first) == 1,
            spec_op_width(second) == 1,
        ensures
            final(self).wf_core(),
            final(self).synced() == old(self).synced(),
            final(self).chunk.code@ == old(self).chunk.code@.push(spec_opcode_byte(first)).push(
                spec_opcode_byte(second),
            ),
            final(self).chunk.constants == old(self).chunk.constants,
            final(self).scanner == old(self).scanner,
            final(self).previous == old(self).previous,
            final(self).current == old(self).current,
    {
        self.emit_op(first);
        self.emit_op(second);
    }

    /// Emits one instruction with its constant-pool operand.
    fn emit_with_operand(&mut self, op: OpCode, operand: u8)
        requires
            old(self).wf_core(),
            spec_op_width(op) == 2,
            operand < old(self).chunk.constants@.len(),
            (op == OpCode::DefineGlobal || op == OpCode::GetGlobal || op == OpCode::SetGlobal)
                ==> old(self).chunk.constants@[operand as int] matches Type::Object(_),
        ensures
            final(self).wf_core(),
            final(self).synced() == old(self).synced(),
            final(self).chunk.code@ == old(self).chunk.code@.push(spec_opcode_byte(op)).push(
                operand,
            ),
            final(self).chunk.constants == old(self).chunk.constants,
            final(self).scanner == old(self).scanner,
            final(self).previous == old(self).previous,
            final(self).current == old(self).current,
    {
        let b = op.to_byte();
        proof {
            let code = self.chunk.code@;
            let consts = self.chunk.constants@;
            assert(code.push(b).push(operand) =~= code + seq![b, operand]);
            assert((code + seq![b, operand])[code.len() as int] == b);
            assert((code + seq![b, operand])[code.len() as int + 1] == operand);
            assert(spec_code_wf_from(code + seq![b, operand], consts, code.len() as int + 2));
            assert(spec_code_wf_from(code + seq![b, operand], consts, code.len() as int));
            lemma_code_wf_extend(code, consts, seq![b, operand], 0);
        }
        self.emit_bytes(b, operand);
    }

    /// Adds a constant to the pool and emits a load of it; fails with a
    /// compile error when the pool is full.
    fn emit_constant(&mut self, value: Type) -> (r: Result<(), CompilerError>)
        requires
            old(self).wf(),
        ensures
            final(self).src() == old(self).src(),
            final(self).scanner == old(self).scanner,
            final(self).previous == old(self).previous,
            final(self).current == old(self).current,
            match r {
                Ok(_) => {
                    &&& final(self).wf_core() && final(self).synced()
                    &&& final(self).chunk.constants@ == old(self).chunk.constants@.push(value)
                    &&& final(self).chunk.code@ == old(self).chunk.code@.push(
                        spec_opcode_byte(OpCode::Constant),
                    ).push(old(self).chunk.constants@.len() as u8)
                },
                Err(e) => {
                    &&& *final(self) == *old(self)
                    &&& !e.spec_is_scan()
                    &&& old(self).chunk.constants@.len() >= 256
                },
            },
    {
        let loc = match self.chunk.constant(value) {
            Some(loc) => loc,
            None => {
                return self.error("Too many constants in one chunk.");
            },
        };
        proof {
            lemma_code_wf_consts_extend(
                self.chunk.code@,
                old(self).chunk.constants@,
                self.chunk.constants@,
                0,
            );
        }
        self.emit_with_operand(OpCode::Constant, loc);
        Ok(())
    }

    /// Interns an identifier's lexeme and adds the resulting string
    /// reference to the constant pool, returning its index.
    fn identifier_constant(&mut self, mem: &mut Memory, name: Token) -> (r: Result<
        u8,
        CompilerError,
    >)
        requires
            old(self).wf(),
            old(mem).wf(),
            spec_consts_wf(old(self).chunk.constants@, old(mem).heap_view().len()),
            spec_token_sane(name, old(self).src()),
        ensures
            final(self).src() == old(self).src(),
            final(self).scanner == old(self).scanner,
            final(self).previous == old(self).previous,
            final(self).current == old(self).current,
            final(mem).wf(),
            final(mem).globals_seq() == old(mem).globals_seq(),
            spec_seq_extends(final(mem).heap_view(), old(mem).heap_view()),
            spec_consts_wf(final(self).chunk.constants@, final(mem).heap_view().len()),
            final(self).chunk.code@ == old(self).chunk.code@,
            match r {
                Ok(idx) => {
                    &&& final(self).wf_core() && final(self).synced()
                    &&& idx as int == old(self).chunk.constants@.len()
                    &&& final(self).chunk.constants@.len() == idx + 1
                    &&& final(self).chunk.constants@ == old(self).chunk.constants@.push(
                        final(self).chunk.constants@[idx as int],
                    )
                    &&& final(self).chunk.constants@[idx as int] matches Type::Object(
                        ObjectPointer::String(p),
                    ) && p.0 < final(mem).heap_view().len() && final(mem).heap_view()[p.0 as int]
                        == old(self).src().subrange(
                        name.start as int,
                        name.start + name.len,
                    )
                },
                Err(e) => {
                    &&& *final(self) == *old(self)
                    &&& !e.spec_is_scan()
                    &&& old(self).chunk.constants@.len() >= 256
                },
            },
            ({
                let (st1, o) = spec_ident_const(
                    old(self).src(),
                    pstate_of(*old(self), *old(mem)),
                    name,
                );
                match r {
                    Ok(idx) => o == Some(idx) && pstate_of(*final(self), *final(mem)) == st1,
                    Err(_) => o is None && pstate_of(*final(self), *final(mem)) == st1,
                }
            }),
    {
        let ghost st0 = pstate_of(*old(self), *old(mem));
        let ptr = {
            let lex = self.scanner.source_slice(name.start, name.len);
            mem.allocate_string(lex)
        };
        proof {
            let lexs = old(self).src().subrange(name.start as int, name.start + name.len);
            assert(ptr.0 as int == spec_intern(st0.heap, lexs).1);
            assert(StringPointer(ptr.0) == StringPointer(spec_intern(st0.heap, lexs).1 as usize));
            assert(mem.heap_view() == spec_intern(st0.heap, lexs).0);
        }
        let value = Type::Object(ObjectPointer::String(ptr));
        let loc = match self.chunk.constant(value) {
            Some(loc) => loc,
            None => {
                proof {
                    let lexs = old(self).src().subrange(name.start as int, name.start + name.len);
                    assert(pstate_of(*self, *mem) =~= ParseState {
                        heap: spec_intern(st0.heap, lexs).0,
                        ..st0
                    });
                }
                return self.error_at(name, "Too many constants in one chunk.");
            },
        };
        proof {
            lemma_code_wf_consts_extend(
                self.chunk.code@,
                old(self).chunk.constants@,
                self.chunk.constants@,
                0,
            );
            let lexs = old(self).src().subrange(name.start as int, name.start + name.len);
            assert(pstate_of(*self, *mem) =~= ParseState {
                consts: st0.consts.push(
                    Type::Object(
                        ObjectPointer::String(
                            StringPointer(spec_intern(st0.heap, lexs).1 as usize),
                        ),
                    ),
                ),
                heap: spec_intern(st0.heap, lexs).0,
                ..st0
            });
        }
        Ok(loc)
    }

    /// Emits the define-global instruction for an already-interned name.
    fn define_variable(&mut self, global: u8)
        requires
            old(self).wf_core(),
            global < old(self).chunk.constants@.len(),
            old(self).chunk.constants@[global as int] matches Type::Object(_),
        ensures
            final(self).wf_core(),
            final(self).synced() == old(self).synced(),
            final(self).chunk.code@ == old(self).chunk.code@.push(
                spec_opcode_byte(OpCode::DefineGlobal),
            ).push(global),
            final(self).chunk.constants == old(self).chunk.constants,
            final(self).scanner == old(self).scanner,
            final(self).previous == old(self).previous,
            final(self).current == old(self).current,
    {
        self.emit_with_operand(OpCode::DefineGlobal, global);
    }

    /// Emits the final return that every chunk ends with.
    fn emit_return(&mut self)
        requires
            old(self).wf_core(),
        ensures
            final(self).wf_core(),
            final(self).synced() == old(self).synced(),
            final(self).chunk.code@ == old(self).chunk.code@.push(
                spec_opcode_byte(OpCode::Return),
            ),
            final(self).chunk.constants == old(self).chunk.constants,
            final(self).scanner == old(self).scanner,
    {
        self.emit_op(OpCode::Return);
    }

    /// After a parse error: discards tokens until a statement boundary — a
    /// semicolon just consumed, or a token that can start a declaration —
    /// so compilation can resume and report further independent errors.
    fn synchronize(&mut self) -> (r: Result<(), CompilerError>)
        requires
            old(self).wf(),
        ensures
            final(self).wf_core(),
            final(self).src() == old(self).src(),
            final(self).chunk == old(self).chunk,
            final(self).measure() <= old(self).measure(),
            match r {
                Ok(_) => {
                    &&& final(self).synced()
                    &&& (final(self).previous.id == TokenType::Semicolon || final(self).current.id
                        == TokenType::EOF || final(self).current.id == TokenType::If
                        || final(self).current.id == TokenType::Def || final(self).current.id
                        == TokenType::Bind || final(self).current.id == TokenType::Print
                        || final(self).current.id == TokenType::Return)
                },
                Err(e) => e.spec_is_scan(),
            },
            (forall|st: ParseState, f: nat|
                st.c == old(self).cur_of() && f > old(self).measure()
                    ==> #[trigger] spec_sync_mirror(old(self).src(), st, f) == (match r {
                    Ok(_) => PStep::Done { st: ParseState { c: final(self).cur_of(), ..st } },
                    Err(_) => PStep::Abort { st: ParseState { c: final(self).cur_of(), ..st } },
                })),
    {
        let ghost c0s = self.cur_of();
        let ghost mb0 = self.measure();
        let ghost mut used: nat = 0nat;
        while self.current.id != TokenType::EOF
            invariant
                self.wf(),
                self.src() == old(self).src(),
                self.chunk == old(self).chunk,
                self.measure() <= old(self).measure(),
                mb0 == old(self).measure(),
                c0s == old(self).cur_of(),
                used + self.measure() <= mb0,
                forall|st: ParseState, g: nat|
                    st.c == c0s && g > mb0 ==> #[trigger] spec_sync_mirror(
                        old(self).src(),
                        st,
                        g,
                    ) == spec_sync_mirror(
                        old(self).src(),
                        ParseState { c: self.cur_of(), ..st },
                        (g - used) as nat,
                    ),
            decreases self.measure(),
        {
            if self.previous.id == TokenType::Semicolon {
                proof {
                    assert forall|st: ParseState, f: nat|
                        st.c == c0s && f > mb0 implies #[trigger] spec_sync_mirror(
                        old(self).src(),
                        st,
                        f,
                    ) == (PStep::Done { st: ParseState { c: self.cur_of(), ..st } }) by {
                        assert(spec_sync_mirror(
                            old(self).src(),
                            ParseState { c: self.cur_of(), ..st },
                            (f - used) as nat,
                        ) == (PStep::Done { st: ParseState { c: self.cur_of(), ..st } }));
                    }
                }
                return Ok(());
            }
            let boundary = match self.current.id {
                TokenType::If => true,
                TokenType::Def => true,
                TokenType::Bind => true,
                TokenType::Print => true,
                TokenType::Return => true,
                _ => false,
            };
            if boundary {
                proof {
                    assert forall|st: ParseState, f: nat|
                        st.c == c0s && f > mb0 implies #[trigger] spec_sync_mirror(
                        old(self).src(),
                        st,
                        f,
                    ) == (PStep::Done { st: ParseState { c: self.cur_of(), ..st } }) by {
                        assert(spec_sync_mirror(
                            old(self).src(),
                            ParseState { c: self.cur_of(), ..st },
                            (f - used) as nat,
                        ) == (PStep::Done { st: ParseState { c: self.cur_of(), ..st } }));
                    }
                }
                return Ok(());
            }
            let ghost c_it = self.cur_of();
            let r1 = self.next();
            let ghost r1g = r1;
            if r1.is_err() {
                proof {
                    assert forall|st: ParseState, f: nat|
                        st.c == c0s && f > mb0 implies #[trigger] spec_sync_mirror(
                        old(self).src(),
                        st,
                        f,
                    ) == (PStep::Abort { st: ParseState { c: self.cur_of(), ..st } }) by {
                        let stm = ParseState { c: c_it, ..st };
                        assert(spec_sync_mirror(old(self).src(), st, f) == spec_sync_mirror(
                            old(self).src(),
                            stm,
                            (f - used) as nat,
                        ));
                        let (c1, ok) = spec_advance(old(self).src(), c_it);
                        assert(!ok && c1 == self.cur_of());
                        assert(ParseState { c: c1, ..stm } =~= ParseState {
                            c: self.cur_of(),
                            ..st
                        });
                    }
                }
                return r1;
            }
            proof {
                assert forall|st: ParseState, g: nat|
                    st.c == c0s && g > mb0 implies #[trigger] spec_sync_mirror(
                    old(self).src(),
                    st,
                    g,
                ) == spec_sync_mirror(
                    old(self).src(),
                    ParseState { c: self.cur_of(), ..st },
                    (g - (used + 1)) as nat,
                ) by {
                    let stm = ParseState { c: c_it, ..st };
                    assert(spec_sync_mirror(old(self).src(), st, g) == spec_sync_mirror(
                        old(self).src(),
                        stm,
                        (g - used) as nat,
                    ));
                    let (c1, ok) = spec_advance(old(self).src(), c_it);
                    assert(ok && c1 == self.cur_of());
                    assert(ParseState { c: c1, ..stm } =~= ParseState { c: self.cur_of(), ..st });
                }
                used = used + 1;
            }
        }
        proof {
            assert forall|st: ParseState, f: nat|
                st.c == c0s && f > mb0 implies #[trigger] spec_sync_mirror(
                old(self).src(),
                st,
                f,
            ) == (PStep::Done { st: ParseState { c: self.cur_of(), ..st } }) by {
                assert(spec_sync_mirror(
                    old(self).src(),
                    ParseState { c: self.cur_of(), ..st },
                    (f - used) as nat,
                ) == (PStep::Done { st: ParseState { c: self.cur_of(), ..st } }));
            }
        }
        Ok(())
    }
}

/// The scanner-and-token-pair part of the parser's state, as the
/// spec-level parser steps it.
#[verifier::ext_equal]
pub ghost struct ScanCur {
    pub pos: int,
    pub line: int,
    pub at_end: bool,
    pub previous: Token,
    pub current: Token,
}

/// The whole parser state the spec-level parser steps: cursor, emitted code,
/// constant pool, and the heap names are interned into.
#[verifier::ext_equal]
pub ghost struct ParseState {
    pub c: ScanCur,
    pub code: Seq<u8>,
    pub consts: Seq<Type>,
    pub heap: Seq<Seq<u8>>,
}

/// What one spec-level parse step yields: success, a recoverable parse
/// error, a scan error (aborts the pass), or fuel exhaustion (never reached
/// from the executable parser, whose input strictly shrinks).
pub ghost enum PStep {
    Done { st: ParseState },
    Fail { st: ParseState },
    Abort { st: ParseState },
    Stuck,
}

/// What consuming one expected token yields: consumed, not the expected
/// kind (state unchanged), or a scan error.
pub ghost enum TriOut {
    Go { c: ScanCur },
    Miss { c: ScanCur },
    Halt { c: ScanCur },
}

/// One scanner step, kept opaque here so parser-level proofs reason about
/// it only through the scanner's contracts.
#[verifier::opaque]
pub open spec fn spec_scan_step(src: Seq<u8>, pos: int, line: int, at_end: bool) -> crate::scanner::ScanOut {
    spec_next_token(src, pos, line, at_end)
}

/// Shifts the token pair by one scanner step: the mirror of the parser's
/// token advance. The flag is false exactly on a scan error, which leaves
/// the lookahead in place.
pub open spec fn spec_advance(src: Seq<u8>, c: ScanCur) -> (ScanCur, bool) {
    let o = spec_scan_step(src, c.pos, c.line, c.at_end);
    let shifted = ScanCur {
        previous: c.current,
        pos: o.pos,
        line: o.line,
        at_end: o.at_end,
        ..c
    };
    match o.item {
        ScanItem::End => (shifted, true),
        ScanItem::Tok { id, start, end, line } => (
            ScanCur {
                current: Token {
                    id,
                    start: start as usize,
                    len: (end - start) as usize,
                    line: line as usize,
                },
                ..shifted
            },
            true,
        ),
        ScanItem::Fail { msg, line } => (shifted, false),
    }
}

/// Consuming a token of the expected kind, or reporting at it.
pub open spec fn spec_consume_tok(src: Seq<u8>, c: ScanCur, id: TokenType) -> TriOut {
    if c.current.id == id {
        let (c1, ok) = spec_advance(src, c);
        if ok {
            TriOut::Go { c: c1 }
        } else {
            TriOut::Halt { c: c1 }
        }
    } else {
        TriOut::Miss { c }
    }
}

/// Conditionally consuming a token of the given kind.
pub open spec fn spec_match_tok(src: Seq<u8>, c: ScanCur, id: TokenType) -> TriOut {
    spec_consume_tok(src, c, id)
}

/// The two bytes loading a fresh constant: the opcode and the pool index.
pub open spec fn spec_const_load(consts: Seq<Type>) -> Seq<u8> {
    seq![spec_opcode_byte(OpCode::Constant), consts.len() as u8]
}

/// The numeric-literal handler: parses the digits of the previous token and
/// emits a constant load; a value past the 32-bit range, or a full pool, is
/// an error.
pub open spec fn spec_number_lit(src: Seq<u8>, st: ParseState) -> PStep {
    let t = st.c.previous;
    let lex = src.subrange(t.start as int, t.start + t.len);
    if spec_dec_val(lex) > i32::MAX {
        PStep::Fail { st }
    } else if st.consts.len() >= 256 {
        PStep::Fail { st }
    } else {
        PStep::Done {
            st: ParseState {
                code: st.code + spec_const_load(st.consts),
                consts: st.consts.push(Type::Number(spec_dec_val(lex) as i32)),
                ..st
            },
        }
    }
}

/// The string-literal handler: interns the content (without the quotes),
/// then emits a constant load of the reference.
pub open spec fn spec_string_lit(src: Seq<u8>, st: ParseState) -> PStep {
    let t = st.c.previous;
    let content = src.subrange(t.start + 1, t.start + t.len - 1);
    let (heap2, idx) = spec_intern(st.heap, content);
    if st.consts.len() >= 256 {
        PStep::Fail { st: ParseState { heap: heap2, ..st } }
    } else {
        PStep::Done {
            st: ParseState {
                code: st.code + spec_const_load(st.consts),
                consts: st.consts.push(
                    Type::Object(ObjectPointer::String(StringPointer(idx as usize))),
                ),
                heap: heap2,
                ..st
            },
        }
    }
}

/// The `true`/`false`/`nil` handler: one dedicated opcode.
pub open spec fn spec_literal_kw(st: ParseState) -> PStep {
    let b = match st.c.previous.id {
        TokenType::False => spec_opcode_byte(OpCode::False),
        TokenType::True => spec_opcode_byte(OpCode::True),
        _ => spec_opcode_byte(OpCode::Nil),
    };
    PStep::Done { st: ParseState { code: st.code.push(b), ..st } }
}

/// Interning an identifier's lexeme into the constant pool: the state after
/// (the heap has the name either way) and the new pool index, or `None` on
/// a full pool.
pub open spec fn spec_ident_const(src: Seq<u8>, st: ParseState, name: Token) -> (
    ParseState,
    Option<u8>,
) {
    let lex = src.subrange(name.start as int, name.start + name.len);
    let (heap2, idx) = spec_intern(st.heap, lex);
    if st.consts.len() >= 256 {
        (ParseState { heap: heap2, ..st }, None)
    } else {
        (
            ParseState {
                consts: st.consts.push(
                    Type::Object(ObjectPointer::String(StringPointer(idx as usize))),
                ),
                heap: heap2,
                ..st
            },
            Some(st.consts.len() as u8),
        )
    }
}

/// The bytes a binary operator compiles to (the three relational
/// complements desugar through a trailing logical not).
pub open spec fn spec_binary_suffix(id: TokenType) -> Seq<u8> {
    match id {
        TokenType::BangEqual => seq![
            spec_opcode_byte(OpCode::Equal),
            spec_opcode_byte(OpCode::Not),
        ],
        TokenType::GreaterEqual => seq![
            spec_opcode_byte(OpCode::Less),
            spec_opcode_byte(OpCode::Not),
        ],
        TokenType::LessEqual => seq![
            spec_opcode_byte(OpCode::Greater),
            spec_opcode_byte(OpCode::Not),
        ],
        TokenType::EqualEqual => seq![spec_opcode_byte(OpCode::Equal)],
        TokenType::Greater => seq![spec_opcode_byte(OpCode::Greater)],
        TokenType::Less => seq![spec_opcode_byte(OpCode::Less)],
        TokenType::Plus => seq![spec_opcode_byte(OpCode::Add)],
        TokenType::Minus => seq![spec_opcode_byte(OpCode::Subtract)],
        TokenType::Star => seq![spec_opcode_byte(OpCode::Multiply)],
        _ => seq![spec_opcode_byte(OpCode::Divide)],
    }
}

/// The spec-level precedence-climbing parser: advance, run the prefix
/// handler of the token just consumed, then every infix operator binding at
/// least as tightly. The fuel only bounds recursion; the executable parser
/// always runs with fuel to spare, so `Stuck` is never its outcome.
pub open spec fn spec_pp(src: Seq<u8>, st: ParseState, prec: int, fuel: nat) -> PStep
    decreases fuel, 0int,
{
    if st.c.pos < 0 || st.c.pos > src.len() {
        PStep::Stuck
    } else {
        let (c1, ok) = spec_advance(src, st.c);
        let st1 = ParseState { c: c1, ..st };
        if !ok {
            PStep::Abort { st: st1 }
        } else {
            match spec_get_rule(c1.previous.id).prefix {
                None => PStep::Fail { st: st1 },
                Some(pf) => if fuel == 0 {
                    PStep::Stuck
                } else {
                    let step = match pf {
                        PrefixFn::Grouping => spec_grouping_mirror(src, st1, (fuel - 1) as nat),
                        PrefixFn::Unary => spec_unary_mirror(src, st1, (fuel - 1) as nat),
                        PrefixFn::Number => spec_number_lit(src, st1),
                        PrefixFn::StringLit => spec_string_lit(src, st1),
                        PrefixFn::Variable => spec_variable_mirror(
                            src,
                            st1,
                            prec <= 1,
                            (fuel - 1) as nat,
                        ),
                        PrefixFn::Literal => spec_literal_kw(st1),
                    };
                    match step {
                        PStep::Done { st: st2 } => spec_infix(src, st2, prec, (fuel - 1) as nat),
                        o => o,
                    }
                },
            }
        }
    }
}

/// The infix loop: while the lookahead binds at least as tightly as the
/// minimum, consume it and compile its right operand one level tighter.
pub open spec fn spec_infix(src: Seq<u8>, st: ParseState, prec: int, fuel: nat) -> PStep
    decreases fuel, 1int,
{
    if spec_prec_rank(spec_get_rule(st.c.current.id).precedence) < prec {
        PStep::Done { st }
    } else if st.c.pos < 0 || st.c.pos > src.len() {
        PStep::Stuck
    } else if fuel == 0 {
        PStep::Stuck
    } else {
        let (c1, ok) = spec_advance(src, st.c);
        let st1 = ParseState { c: c1, ..st };
        if !ok {
            PStep::Abort { st: st1 }
        } else {
            match spec_binary_mirror(src, st1, (fuel - 1) as nat) {
                PStep::Done { st: st2 } => spec_infix(src, st2, prec, (fuel - 1) as nat),
                o => o,
            }
        }
    }
}

/// A whole expression: the climb from assignment precedence.
pub open spec fn spec_expression_mirror(src: Seq<u8>, st: ParseState, fuel: nat) -> PStep
    decreases fuel, 1int,
{
    spec_pp(src, st, 1, fuel)
}

/// The infix handler: the right operand one level tighter, then the
/// operator's bytes.
pub open spec fn spec_binary_mirror(src: Seq<u8>, st: ParseState, fuel: nat) -> PStep
    decreases fuel, 1int,
{
    let op = st.c.previous.id;
    match spec_pp(src, st, spec_prec_rank(spec_get_rule(op).precedence) + 1, fuel) {
        PStep::Done { st: st1 } => PStep::Done {
            st: ParseState { code: st1.code + spec_binary_suffix(op), ..st1 },
        },
        o => o,
    }
}

/// Grouping: an expression, then the closing parenthesis.
pub open spec fn spec_grouping_mirror(src: Seq<u8>, st: ParseState, fuel: nat) -> PStep
    decreases fuel, 2int,
{
    match spec_expression_mirror(src, st, fuel) {
        PStep::Done { st: st1 } => match spec_consume_tok(src, st1.c, TokenType::RightParen) {
            TriOut::Go { c } => PStep::Done { st: ParseState { c, ..st1 } },
            TriOut::Miss { c } => PStep::Fail { st: st1 },
            TriOut::Halt { c } => PStep::Abort { st: ParseState { c, ..st1 } },
        },
        o => o,
    }
}

/// Unary `-`/`!`: the operand at unary precedence, then the opcode.
pub open spec fn spec_unary_mirror(src: Seq<u8>, st: ParseState, fuel: nat) -> PStep
    decreases fuel, 1int,
{
    let op = st.c.previous.id;
    match spec_pp(src, st, spec_prec_rank(Precedence::Unary), fuel) {
        PStep::Done { st: st1 } => PStep::Done {
            st: ParseState {
                code: st1.code.push(
                    if op == TokenType::Bang {
                        spec_opcode_byte(OpCode::Not)
                    } else {
                        spec_opcode_byte(OpCode::Negate)
                    },
                ),
                ..st1
            },
        },
        o => o,
    }
}

/// An identifier in expression position: a global read, or — after an `=`
/// where assignment is permitted — the right-hand side then a global write.
/// Either way the name's pool index is the operand.
pub open spec fn spec_variable_mirror(
    src: Seq<u8>,
    st: ParseState,
    can_assign: bool,
    fuel: nat,
) -> PStep
    decreases fuel, 3int,
{
    spec_named_variable(src, st, st.c.previous, can_assign, fuel)
}

/// The read-or-write compilation of a named global.
pub open spec fn spec_named_variable(
    src: Seq<u8>,
    st: ParseState,
    name: Token,
    can_assign: bool,
    fuel: nat,
) -> PStep
    decreases fuel, 2int,
{
    if can_assign && st.c.current.id == TokenType::Equal {
        match spec_match_tok(src, st.c, TokenType::Equal) {
            TriOut::Go { c: c1 } => match spec_expression_mirror(
                src,
                ParseState { c: c1, ..st },
                fuel,
            ) {
                PStep::Done { st: st2 } => spec_named_end(src, st2, name, OpCode::SetGlobal),
                o => o,
            },
            TriOut::Halt { c: c1 } => PStep::Abort { st: ParseState { c: c1, ..st } },
            TriOut::Miss { c: c1 } => PStep::Stuck,
        }
    } else {
        spec_named_end(src, st, name, OpCode::GetGlobal)
    }
}

/// The tail of a global read or write: intern the name, then the opcode
/// with the pool index as operand.
pub open spec fn spec_named_end(src: Seq<u8>, st: ParseState, name: Token, op: OpCode) -> PStep {
    let (st1, o) = spec_ident_const(src, st, name);
    match o {
        Some(idx) => PStep::Done {
            st: ParseState { code: st1.code + seq![spec_opcode_byte(op), idx], ..st1 },
        },
        None => PStep::Fail { st: st1 },
    }
}

/// `print expression ;` at the spec level.
pub open spec fn spec_print_stmt_mirror(src: Seq<u8>, st: ParseState, fuel: nat) -> PStep {
    match spec_expression_mirror(src, st, fuel) {
        PStep::Done { st: st1 } => match spec_consume_tok(src, st1.c, TokenType::Semicolon) {
            TriOut::Go { c } => PStep::Done {
                st: ParseState {
                    c,
                    code: st1.code.push(spec_opcode_byte(OpCode::Print)),
                    ..st1
                },
            },
            TriOut::Miss { c } => PStep::Fail { st: st1 },
            TriOut::Halt { c } => PStep::Abort { st: ParseState { c, ..st1 } },
        },
        o => o,
    }
}

/// `expression ;` at the spec level: the unused value is popped.
pub open spec fn spec_expr_stmt_mirror(src: Seq<u8>, st: ParseState, fuel: nat) -> PStep {
    match spec_expression_mirror(src, st, fuel) {
        PStep::Done { st: st1 } => match spec_consume_tok(src, st1.c, TokenType::Semicolon) {
            TriOut::Go { c } => PStep::Done {
                st: ParseState {
                    c,
                    code: st1.code.push(spec_opcode_byte(OpCode::Pop)),
                    ..st1
                },
            },
            TriOut::Miss { c } => PStep::Fail { st: st1 },
            TriOut::Halt { c } => PStep::Abort { st: ParseState { c, ..st1 } },
        },
        o => o,
    }
}

/// A statement: `print` or a bare expression statement.
pub open spec fn spec_statement_mirror(src: Seq<u8>, st: ParseState, fuel: nat) -> PStep {
    match spec_match_tok(src, st.c, TokenType::Print) {
        TriOut::Go { c: c1 } => spec_print_stmt_mirror(src, ParseState { c: c1, ..st }, fuel),
        TriOut::Miss { c: c1 } => spec_expr_stmt_mirror(src, st, fuel),
        TriOut::Halt { c: c1 } => PStep::Abort { st: ParseState { c: c1, ..st } },
    }
}

/// Consuming and interning a variable name: the step and the pool index
/// (meaningful only on success).
pub open spec fn spec_parse_var_mirror(src: Seq<u8>, st: ParseState) -> (PStep, u8) {
    match spec_consume_tok(src, st.c, TokenType::Identifier) {
        TriOut::Go { c: c1 } => {
            let (st2, o) = spec_ident_const(src, ParseState { c: c1, ..st }, c1.previous);
            match o {
                Some(idx) => (PStep::Done { st: st2 }, idx),
                None => (PStep::Fail { st: st2 }, 0),
            }
        },
        TriOut::Miss { c: c1 } => (PStep::Fail { st }, 0),
        TriOut::Halt { c: c1 } => (PStep::Abort { st: ParseState { c: c1, ..st } }, 0),
    }
}

/// The tail of a `bind`: the terminating semicolon, then the define-global
/// instruction for the interned name.
pub open spec fn spec_var_decl_end(src: Seq<u8>, st: ParseState, idx: u8) -> PStep {
    match spec_consume_tok(src, st.c, TokenType::Semicolon) {
        TriOut::Go { c: c3 } => PStep::Done {
            st: ParseState {
                c: c3,
                code: st.code + seq![spec_opcode_byte(OpCode::DefineGlobal), idx],
                ..st
            },
        },
        TriOut::Miss { c: c3 } => PStep::Fail { st },
        TriOut::Halt { c: c3 } => PStep::Abort { st: ParseState { c: c3, ..st } },
    }
}

/// `bind name (= expression)? ;` at the spec level.
pub open spec fn spec_var_decl_mirror(src: Seq<u8>, st: ParseState, fuel: nat) -> PStep {
    let (s, idx) = spec_parse_var_mirror(src, st);
    match s {
        PStep::Done { st: st1 } => match spec_match_tok(src, st1.c, TokenType::Equal) {
            TriOut::Go { c: c2 } => match spec_expression_mirror(
                src,
                ParseState { c: c2, ..st1 },
                fuel,
            ) {
                PStep::Done { st: st3 } => spec_var_decl_end(src, st3, idx),
                o => o,
            },
            TriOut::Miss { c: c2 } => spec_var_decl_end(
                src,
                ParseState { code: st1.code.push(spec_opcode_byte(OpCode::Nil)), ..st1 },
                idx,
            ),
            TriOut::Halt { c: c2 } => PStep::Abort { st: ParseState { c: c2, ..st1 } },
        },
        o => o,
    }
}

/// A declaration: `bind` or any statement.
pub open spec fn spec_declaration_mirror(src: Seq<u8>, st: ParseState, fuel: nat) -> PStep {
    match spec_match_tok(src, st.c, TokenType::Bind) {
        TriOut::Go { c: c1 } => spec_var_decl_mirror(src, ParseState { c: c1, ..st }, fuel),
        TriOut::Miss { c: c1 } => spec_statement_mirror(src, st, fuel),
        TriOut::Halt { c: c1 } => PStep::Abort { st: ParseState { c: c1, ..st } },
    }
}

/// Resynchronization after a parse error: discard tokens up to a statement
/// boundary.
pub open spec fn spec_sync_mirror(src: Seq<u8>, st: ParseState, fuel: nat) -> PStep
    decreases fuel,
{
    if st.c.current.id == TokenType::EOF {
        PStep::Done { st }
    } else if st.c.previous.id == TokenType::Semicolon {
        PStep::Done { st }
    } else if st.c.current.id == TokenType::If || st.c.current.id == TokenType::Def
        || st.c.current.id == TokenType::Bind || st.c.current.id == TokenType::Print
        || st.c.current.id == TokenType::Return {
        PStep::Done { st }
    } else if st.c.pos < 0 || st.c.pos > src.len() {
        PStep::Stuck
    } else if fuel == 0 {
        PStep::Stuck
    } else {
        let (c1, ok) = spec_advance(src, st.c);
        if ok {
            spec_sync_mirror(src, ParseState { c: c1, ..st }, (fuel - 1) as nat)
        } else {
            PStep::Abort { st: ParseState { c: c1, ..st } }
        }
    }
}

/// How the spec-level compile loop ends: all declarations consumed (with or
/// without recorded errors), a scan error, or fuel out.
pub ghost enum LoopOut {
    Finished { st: ParseState, erred: bool },
    Halted { st: ParseState },
    StuckL,
}

/// The spec-level compile loop: declarations to the end marker, recording
/// errors and resynchronizing after each.
pub open spec fn spec_compile_loop(src: Seq<u8>, st: ParseState, erred: bool, fuel: nat) -> LoopOut
    decreases fuel,
{
    match spec_match_tok(src, st.c, TokenType::EOF) {
        TriOut::Go { c: c1 } => LoopOut::Finished { st: ParseState { c: c1, ..st }, erred },
        TriOut::Halt { c: c1 } => LoopOut::Halted { st: ParseState { c: c1, ..st } },
        TriOut::Miss { c: c1 } => if fuel == 0 {
            LoopOut::StuckL
        } else {
            match spec_declaration_mirror(src, st, fuel) {
                PStep::Done { st: st1 } => spec_compile_loop(src, st1, erred, (fuel - 1) as nat),
                PStep::Fail { st: st1 } => match spec_sync_mirror(src, st1, fuel) {
                    PStep::Done { st: st2 } => spec_compile_loop(
                        src,
                        st2,
                        true,
                        (fuel - 1) as nat,
                    ),
                    PStep::Abort { st: st2 } => LoopOut::Halted { st: st2 },
                    _ => LoopOut::StuckL,
                },
                PStep::Abort { st: st1 } => LoopOut::Halted { st: st1 },
                PStep::Stuck => LoopOut::StuckL,
            }
        },
    }
}

/// What compiling a whole source yields: the emitted code and constants and
/// the heap after interning, or rejection. `CStuck` is a fuel artifact the
/// executable compiler never produces.
pub ghost enum CompOut {
    COk { code: Seq<u8>, consts: Seq<Type>, heap: Seq<Seq<u8>> },
    CRejected,
    CStuck,
}

/// Fuel ample for any source: more than the scanner's progress measure.
pub open spec fn spec_compile_fuel(src: Seq<u8>) -> nat {
    (2 * src.len() + 2) as nat
}

/// The whole compiler at the spec level: what `compile` returns for a given
/// source and starting heap. Acceptance and the emitted chunk are functions
/// of the source alone (the heap only hosts the interned names).
pub open spec fn spec_compile(src: Seq<u8>, heap0: Seq<Seq<u8>>) -> CompOut {
    let t0 = Token { id: TokenType::EOF, start: 0, len: 0, line: 0 };
    let c0 = ScanCur { pos: 0, line: 1, at_end: false, previous: t0, current: t0 };
    let (c1, ok) = spec_advance(src, c0);
    if !ok {
        CompOut::CRejected
    } else {
        let st1 = ParseState { c: c1, code: Seq::empty(), consts: Seq::empty(), heap: heap0 };
        match spec_compile_loop(src, st1, false, spec_compile_fuel(src)) {
            LoopOut::Finished { st, erred } => if erred {
                CompOut::CRejected
            } else {
                CompOut::COk {
                    code: st.code.push(spec_opcode_byte(OpCode::Return)),
                    consts: st.consts,
                    heap: st.heap,
                }
            },
            LoopOut::Halted { st } => CompOut::CRejected,
            LoopOut::StuckL => CompOut::CStuck,
        }
    }
}

/// Whether a source is accepted: compiling it yields a chunk.
pub open spec fn spec_accepts(src: Seq<u8>, heap0: Seq<Seq<u8>>) -> bool {
    spec_compile(src, heap0) is COk
}

/// What every parse function requires of the parser/memory pair.
spec fn spec_pm_pre(p: Parser, m: Memory) -> bool {
    &&& p.wf()
    &&& m.wf()
    &&& spec_consts_wf(p.chunk.constants@, m.heap_view().len())
}

/// What every parse function guarantees about how it moved the pair: the
/// invariants hold again, the source is the same, code, constants and heap
/// only grew, globals are untouched, and input was only consumed.
spec fn spec_pm_rel(p0: Parser, m0: Memory, p1: Parser, m1: Memory) -> bool {
    &&& p1.wf_core()
    &&& m1.wf()
    &&& spec_consts_wf(p1.chunk.constants@, m1.heap_view().len())
    &&& p1.src() == p0.src()
    &&& spec_seq_extends(p1.chunk.code@, p0.chunk.code@)
    &&& spec_seq_extends(p1.chunk.constants@, p0.chunk.constants@)
    &&& spec_seq_extends(m1.heap_view(), m0.heap_view())
    &&& m1.globals_seq() == m0.globals_seq()
    &&& p1.measure() <= p0.measure()
}

/// The lookahead/end agreement after a parse step: it holds again unless a
/// scan error is on its way out (which aborts the compile).
spec fn spec_sync_of<T>(p: Parser, r: Result<T, CompilerError>) -> bool {
    match r {
        Ok(_) => p.synced(),
        Err(e) => !e.spec_is_scan() ==> p.synced(),
    }
}

/// The full spec-level state of a parser/memory pair.
spec fn pstate_of(p: Parser, m: Memory) -> ParseState {
    ParseState {
        c: p.cur_of(),
        code: p.chunk.code@,
        consts: p.chunk.constants@,
        heap: m.heap_view(),
    }
}

/// The spec-level step a parse function's result and final state stand for.
spec fn step_of(p: Parser, m: Memory, r: Result<(), CompilerError>) -> PStep {
    match r {
        Ok(_) => PStep::Done { st: pstate_of(p, m) },
        Err(e) => if e.spec_is_scan() {
            PStep::Abort { st: pstate_of(p, m) }
        } else {
            PStep::Fail { st: pstate_of(p, m) }
        },
    }
}

/// The spec-level contract of the precedence climber: for every ample
/// fuel, the mirror agrees with what the executable parser did.
spec fn spec_pp_post(
    p0: Parser,
    m0: Memory,
    p1: Parser,
    m1: Memory,
    precedence: Precedence,
    r: Result<(), CompilerError>,
) -> bool {
    forall|f: nat| f > p0.measure() ==> #[trigger] spec_pp(
        p0.src(),
        pstate_of(p0, m0),
        spec_prec_rank(precedence),
        f,
    ) == step_of(p1, m1, r)
}

/// Sequence extension is transitive.
proof fn lemma_extends_trans<A>(a: Seq<A>, b: Seq<A>, c: Seq<A>)
    requires
        spec_seq_extends(b, a),
        spec_seq_extends(c, b),
    ensures
        spec_seq_extends(c, a),
{
}

/// A value well-formed for a heap stays well-formed when the heap grows.
proof fn lemma_consts_wf_mono(cs: Seq<Type>, h1: nat, h2: nat)
    requires
        spec_consts_wf(cs, h1),
        h1 <= h2,
    ensures
        spec_consts_wf(cs, h2),
{
    assert forall|i: int| 0 <= i < cs.len() implies spec_value_wf(#[trigger] cs[i], h2) by {
        assert(spec_value_wf(cs[i], h1));
    }
}

/// Parses and emits an expression at the given minimum binding precedence:
/// one prefix construct, then every infix operator that binds at least that
/// tightly, left-associatively.
#[verifier::rlimit(100)]
fn parse_precedence(p: &mut Parser, mem: &mut Memory, precedence: Precedence) -> (r: Result<
    (),
    CompilerError,
>)
    requires
        spec_pm_pre(*old(p), *old(mem)),
        spec_prec_rank(precedence) >= 1,
    ensures
        spec_pm_rel(*old(p), *old(mem), *final(p), *final(mem)),
        spec_sync_of(*final(p), r),
        old(p).current.id != TokenType::EOF ==> final(p).measure() < old(p).measure(),
        spec_pp_post(*old(p), *old(mem), *final(p), *final(mem), precedence, r),
    decreases p.measure(), 0int,
{
    let ghost st0 = pstate_of(*old(p), *old(mem));
    let r0 = p.next();
    let ghost r0g = r0;
    match r0 {
        Err(e) => {
            proof {
                assert forall|f: nat| f > old(p).measure() implies #[trigger] spec_pp(
                    old(p).src(),
                    st0,
                    spec_prec_rank(precedence),
                    f,
                ) == step_of(*p, *mem, r0g) by {
                    let (c1, ok) = spec_advance(old(p).src(), st0.c);
                    assert(!ok);
                    assert(pstate_of(*p, *mem) =~= ParseState { c: c1, ..st0 });
                }
            }
            proof {
                assert(spec_pp_post(*old(p), *old(mem), *p, *mem, precedence, r0g));
            }
            return Err(e);
        },
        Ok(_) => {},
    }
    let ghost p_a = *p;
    let rule = get_rule(p.previous.id);
    let pf = match rule.prefix {
        Some(pf) => pf,
        None => {
            let r1: Result<(), CompilerError> = p.error("Expect expression.");
            let ghost r1g2 = r1;
            proof {
                let ghost r1g = r1;
                assert forall|f: nat| f > old(p).measure() implies #[trigger] spec_pp(
                    old(p).src(),
                    st0,
                    spec_prec_rank(precedence),
                    f,
                ) == step_of(*p, *mem, r1g) by {
                    let (c1, ok) = spec_advance(old(p).src(), st0.c);
                    assert(ok && c1 == p_a.cur_of());
                    assert(pstate_of(*p, *mem) =~= ParseState { c: c1, ..st0 });
                }
            }
            proof {
                assert(spec_pp_post(*old(p), *old(mem), *p, *mem, precedence, r1g2));
            }
            return r1;
        },
    };
    let can_assign = precedence.rank() <= 1;
    let rh = match pf {
        PrefixFn::Grouping => grouping(p, mem, can_assign),
        PrefixFn::Unary => unary(p, mem, can_assign),
        PrefixFn::Number => number(p, mem, can_assign),
        PrefixFn::StringLit => string(p, mem, can_assign),
        PrefixFn::Variable => variable(p, mem, can_assign),
        PrefixFn::Literal => literal(p, mem, can_assign),
    };
    let ghost rhg = rh;
    let ghost p_b = *p;
    let ghost m_b = *mem;
    proof {
        assert forall|f: nat| f > old(p).measure() implies #[trigger] spec_pp(
            old(p).src(),
            st0,
            spec_prec_rank(precedence),
            f,
        ) == (match rhg {
            Ok(_) => spec_infix(
                old(p).src(),
                pstate_of(p_b, m_b),
                spec_prec_rank(precedence),
                (f - 1) as nat,
            ),
            Err(_) => step_of(p_b, m_b, rhg),
        }) by {
            let src = old(p).src();
            let (c1, ok) = spec_advance(src, st0.c);
            assert(ok && c1 == p_a.cur_of());
            let st1 = ParseState { c: c1, ..st0 };
            assert(st1 =~= pstate_of(p_a, *old(mem)));
            assert(p_a.previous.id != TokenType::EOF);
            assert(p_a.measure() < old(p).measure());
            assert(f - 1 > p_a.measure());
            match pf {
                PrefixFn::Grouping => {
                    assert(spec_grouping_mirror(src, pstate_of(p_a, *old(mem)), (f - 1) as nat)
                        == step_of(p_b, m_b, rhg));
                },
                PrefixFn::Unary => {
                    assert(spec_unary_mirror(src, pstate_of(p_a, *old(mem)), (f - 1) as nat)
                        == step_of(p_b, m_b, rhg));
                },
                PrefixFn::Number => {
                    assert(spec_number_lit(src, pstate_of(p_a, *old(mem))) == step_of(
                        p_b,
                        m_b,
                        rhg,
                    ));
                },
                PrefixFn::StringLit => {
                    assert(spec_string_lit(src, pstate_of(p_a, *old(mem))) == step_of(
                        p_b,
                        m_b,
                        rhg,
                    ));
                },
                PrefixFn::Variable => {
                    assert(spec_variable_mirror(
                        src,
                        pstate_of(p_a, *old(mem)),
                        can_assign,
                        (f - 1) as nat,
                    ) == step_of(p_b, m_b, rhg));
                },
                PrefixFn::Literal => {
                    assert(spec_literal_kw(pstate_of(p_a, *old(mem))) == step_of(p_b, m_b, rhg));
                },
            }
        }
    }
    if rh.is_err() {
        proof {
            assert forall|f: nat| f > old(p).measure() implies #[trigger] spec_pp(
                old(p).src(),
                pstate_of(*old(p), *old(mem)),
                spec_prec_rank(precedence),
                f,
            ) == step_of(*p, *mem, rhg) by {
                assert(spec_pp(old(p).src(), st0, spec_prec_rank(precedence), f) == (match rhg {
                    Ok(_) => spec_infix(
                        old(p).src(),
                        pstate_of(p_b, m_b),
                        spec_prec_rank(precedence),
                        (f - 1) as nat,
                    ),
                    Err(_) => step_of(p_b, m_b, rhg),
                }));
                assert(rhg is Err);
            }
            assert(spec_pp_post(*old(p), *old(mem), *p, *mem, precedence, rhg));
        }
        return rh;
    }
    let ghost st_l = pstate_of(*p, *mem);
    let ghost mb0 = p.measure();
    let ghost mut used: nat = 0nat;
    loop
        invariant
            p.wf(),
            mem.wf(),
            spec_consts_wf(p.chunk.constants@, mem.heap_view().len()),
            spec_pm_rel(*old(p), *old(mem), *p, *mem),
            spec_prec_rank(precedence) >= 1,
            p.measure() < old(p).measure(),
            st0 == pstate_of(*old(p), *old(mem)),
            mb0 < old(p).measure(),
            used + p.measure() <= mb0,
            forall|g: nat| g > mb0 ==> #[trigger] spec_infix(
                old(p).src(),
                st_l,
                spec_prec_rank(precedence),
                g,
            ) == spec_infix(
                old(p).src(),
                pstate_of(*p, *mem),
                spec_prec_rank(precedence),
                (g - used) as nat,
            ),
            forall|f: nat| f > old(p).measure() ==> #[trigger] spec_pp(
                old(p).src(),
                st0,
                spec_prec_rank(precedence),
                f,
            ) == spec_infix(old(p).src(), st_l, spec_prec_rank(precedence), (f - 1) as nat),
        ensures
            p.wf(),
            spec_pm_rel(*old(p), *old(mem), *p, *mem),
            p.measure() < old(p).measure(),
            spec_prec_rank(spec_get_rule(p.current.id).precedence) < spec_prec_rank(precedence),
            forall|f: nat| f > old(p).measure() ==> #[trigger] spec_pp(
                old(p).src(),
                st0,
                spec_prec_rank(precedence),
                f,
            ) == (PStep::Done { st: pstate_of(*p, *mem) }),
        decreases p.measure(),
    {
        let crule = get_rule(p.current.id);
        if precedence.rank() > crule.precedence.rank() {
            proof {
                assert forall|f: nat| f > old(p).measure() implies #[trigger] spec_pp(
                    old(p).src(),
                    st0,
                    spec_prec_rank(precedence),
                    f,
                ) == (PStep::Done { st: pstate_of(*p, *mem) }) by {
                    assert(spec_infix(
                        old(p).src(),
                        st_l,
                        spec_prec_rank(precedence),
                        (f - 1) as nat,
                    ) == spec_infix(
                        old(p).src(),
                        pstate_of(*p, *mem),
                        spec_prec_rank(precedence),
                        (f - 1 - used) as nat,
                    ));
                }
            }
            break ;
        }
        let ghost p_it = *p;
        let ghost m_it = *mem;
        let r2 = p.next();
        let ghost r2g = r2;
        if r2.is_err() {
                proof {
                    assert forall|f: nat| f > old(p).measure() implies #[trigger] spec_pp(
                        old(p).src(),
                        st0,
                        spec_prec_rank(precedence),
                        f,
                    ) == step_of(*p, *mem, r2g) by {
                        assert(spec_pp(
                            old(p).src(),
                            st0,
                            spec_prec_rank(precedence),
                            f,
                        ) == spec_infix(
                            old(p).src(),
                            st_l,
                            spec_prec_rank(precedence),
                            (f - 1) as nat,
                        ));
                        assert(spec_infix(
                            old(p).src(),
                            st_l,
                            spec_prec_rank(precedence),
                            (f - 1) as nat,
                        ) == spec_infix(
                            old(p).src(),
                            pstate_of(p_it, m_it),
                            spec_prec_rank(precedence),
                            ((f - 1) as nat - used) as nat,
                        ));
                        let (c1, ok) = spec_advance(old(p).src(), p_it.cur_of());
                        assert(!ok);
                        assert(pstate_of(*p, *mem) =~= ParseState {
                            c: c1,
                            ..pstate_of(p_it, m_it)
                        });
                        assert(spec_infix(
                            old(p).src(),
                            pstate_of(p_it, m_it),
                            spec_prec_rank(precedence),
                            ((f - 1) as nat - used) as nat,
                        ) == (PStep::Abort { st: pstate_of(*p, *mem) }));
                        assert(step_of(*p, *mem, r2g) == (PStep::Abort {
                            st: pstate_of(*p, *mem),
                        }));
                    }
                    assert(spec_pp_post(*old(p), *old(mem), *p, *mem, precedence, r2g));
                }
                return r2;
        }
        let ghost p_n = *p;
        let inf = get_rule(p.previous.id).infix;
        match inf {
            Some(InfixFn::Binary) => {
                let r3 = binary(p, mem, can_assign);
                let ghost r3g = r3;
                match r3 {
                    Ok(_) => {
                        proof {
                            let src = old(p).src();
                            let prank = spec_prec_rank(precedence);
                            assert forall|g: nat| g > mb0 implies #[trigger] spec_infix(
                                src,
                                st_l,
                                prank,
                                g,
                            ) == spec_infix(
                                src,
                                pstate_of(*p, *mem),
                                prank,
                                (g - (used + 1)) as nat,
                            ) by {
                                assert(spec_infix(src, st_l, prank, g) == spec_infix(
                                    src,
                                    pstate_of(p_it, m_it),
                                    prank,
                                    (g - used) as nat,
                                ));
                                let (c1, ok) = spec_advance(src, p_it.cur_of());
                                assert(ok && c1 == p_n.cur_of());
                                assert(ParseState { c: c1, ..pstate_of(p_it, m_it) } =~= pstate_of(
                                    p_n,
                                    m_it,
                                ));
                                assert((g - used) as nat > p_it.measure());
                                assert((g - used - 1) as nat > p_n.measure());
                                assert(spec_binary_mirror(
                                    src,
                                    pstate_of(p_n, m_it),
                                    (g - used - 1) as nat,
                                ) == step_of(*p, *mem, r3g));
                            }
                            used = used + 1;
                        }
                    },
                    Err(e) => {
                        proof {
                            let src = old(p).src();
                            let prank = spec_prec_rank(precedence);
                            assert forall|f: nat| f > old(p).measure() implies #[trigger] spec_pp(
                                src,
                                st0,
                                prank,
                                f,
                            ) == step_of(*p, *mem, r3g) by {
                                assert(spec_infix(src, st_l, prank, (f - 1) as nat) == spec_infix(
                                    src,
                                    pstate_of(p_it, m_it),
                                    prank,
                                    (f - 1 - used) as nat,
                                ));
                                let (c1, ok) = spec_advance(src, p_it.cur_of());
                                assert(ok && c1 == p_n.cur_of());
                                assert(ParseState { c: c1, ..pstate_of(p_it, m_it) } =~= pstate_of(
                                    p_n,
                                    m_it,
                                ));
                                assert((f - 1 - used) as nat > p_it.measure());
                                assert((f - 1 - used - 1) as nat > p_n.measure());
                                assert(spec_binary_mirror(
                                    src,
                                    pstate_of(p_n, m_it),
                                    (f - 1 - used - 1) as nat,
                                ) == step_of(*p, *mem, r3g));
                            }
                            assert(spec_pp_post(*old(p), *old(mem), *p, *mem, precedence, r3g));
                        }
                        return Err(e);
                    },
                }
            },
            None => {
                proof {
                    lemma_infix_present(p.previous.id);
                    assert(false);
                }
                return Ok(());
            },
        }
    }
    proof {
        assert(spec_pp_post(
            *old(p),
            *old(mem),
            *p,
            *mem,
            precedence,
            Result::<(), CompilerError>::Ok(()),
        ));
    }
    Ok(())
}

/// Parses and emits a whole expression (lowest real precedence).
fn expression(p: &mut Parser, mem: &mut Memory) -> (r: Result<(), CompilerError>)
    requires
        spec_pm_pre(*old(p), *old(mem)),
    ensures
        spec_pm_rel(*old(p), *old(mem), *final(p), *final(mem)),
        spec_sync_of(*final(p), r),
        old(p).current.id != TokenType::EOF ==> final(p).measure() < old(p).measure(),
        (forall|f: nat| f > old(p).measure() ==> #[trigger] spec_expression_mirror(
            old(p).src(),
            pstate_of(*old(p), *old(mem)),
            f,
        ) == step_of(*final(p), *final(mem), r)),
    decreases p.measure(), 1int,
{
    let ghost st0 = pstate_of(*old(p), *old(mem));
    let r1 = parse_precedence(p, mem, Precedence::Assignment);
    proof {
        assert forall|f: nat| f > old(p).measure() implies #[trigger] spec_expression_mirror(
            old(p).src(),
            st0,
            f,
        ) == step_of(*p, *mem, r1) by {
            assert(spec_pp(old(p).src(), st0, spec_prec_rank(Precedence::Assignment), f)
                == step_of(*p, *mem, r1));
        }
    }
    r1
}

/// The infix handler: the operator token is behind the cursor; parses the
/// right operand one level tighter, then emits the operator's opcode
/// (desugaring `!=`, `>=` and `<=` through a trailing logical not).
fn binary(p: &mut Parser, mem: &mut Memory, _can_assign: bool) -> (r: Result<(), CompilerError>)
    requires
        spec_pm_pre(*old(p), *old(mem)),
        spec_get_rule(old(p).previous.id).infix is Some,
    ensures
        spec_pm_rel(*old(p), *old(mem), *final(p), *final(mem)),
        spec_sync_of(*final(p), r),
        (r is Ok ==> ({
            let code2 = final(p).chunk.code@;
            let n = code2.len() as int;
            match old(p).previous.id {
                TokenType::BangEqual => n >= 2 && code2[n - 2] == spec_opcode_byte(OpCode::Equal)
                    && code2[n - 1] == spec_opcode_byte(OpCode::Not),
                TokenType::GreaterEqual => n >= 2 && code2[n - 2] == spec_opcode_byte(OpCode::Less)
                    && code2[n - 1] == spec_opcode_byte(OpCode::Not),
                TokenType::LessEqual => n >= 2 && code2[n - 2] == spec_opcode_byte(
                    OpCode::Greater,
                ) && code2[n - 1] == spec_opcode_byte(OpCode::Not),
                TokenType::EqualEqual => n >= 1 && code2[n - 1] == spec_opcode_byte(OpCode::Equal),
                TokenType::Greater => n >= 1 && code2[n - 1] == spec_opcode_byte(OpCode::Greater),
                TokenType::Less => n >= 1 && code2[n - 1] == spec_opcode_byte(OpCode::Less),
                TokenType::Plus => n >= 1 && code2[n - 1] == spec_opcode_byte(OpCode::Add),
                TokenType::Minus => n >= 1 && code2[n - 1] == spec_opcode_byte(OpCode::Subtract),
                TokenType::Star => n >= 1 && code2[n - 1] == spec_opcode_byte(OpCode::Multiply),
                TokenType::Slash => n >= 1 && code2[n - 1] == spec_opcode_byte(OpCode::Divide),
                _ => true,
            }
        })),
        (forall|f: nat| f > old(p).measure() ==> #[trigger] spec_binary_mirror(
            old(p).src(),
            pstate_of(*old(p), *old(mem)),
            f,
        ) == step_of(*final(p), *final(mem), r)),
    decreases p.measure(), 1int,
{
    let ghost st0 = pstate_of(*old(p), *old(mem));
    let op_type = p.previous.id;
    let rule = get_rule(op_type);
    let next_prec = rule.precedence.add_one();
    let r1 = parse_precedence(p, mem, next_prec);
    let ghost p1 = *p;
    let ghost m1 = *mem;
    let ghost r1g = r1;
    match r1 {
        Ok(_) => {
            match op_type {
                TokenType::BangEqual => p.emit_op_pair(OpCode::Equal, OpCode::Not),
                TokenType::GreaterEqual => p.emit_op_pair(OpCode::Less, OpCode::Not),
                TokenType::LessEqual => p.emit_op_pair(OpCode::Greater, OpCode::Not),
                TokenType::EqualEqual => p.emit_op(OpCode::Equal),
                TokenType::Greater => p.emit_op(OpCode::Greater),
                TokenType::Less => p.emit_op(OpCode::Less),
                TokenType::Plus => p.emit_op(OpCode::Add),
                TokenType::Minus => p.emit_op(OpCode::Subtract),
                TokenType::Star => p.emit_op(OpCode::Multiply),
                TokenType::Slash => p.emit_op(OpCode::Divide),
                _ => {
                    proof {
                        assert(false);
                    }
                },
            }
            proof {
                assert forall|f: nat| f > old(p).measure() implies #[trigger] spec_binary_mirror(
                    old(p).src(),
                    st0,
                    f,
                ) == step_of(*p, *mem, Result::<(), CompilerError>::Ok(())) by {
                    assert(spec_pp(old(p).src(), st0, spec_prec_rank(next_prec), f) == step_of(
                        p1,
                        m1,
                        r1g,
                    ));
                    assert(spec_prec_rank(next_prec) == spec_prec_rank(
                        spec_get_rule(op_type).precedence,
                    ) + 1);
                    assert(p.chunk.code@ =~= pstate_of(p1, m1).code + spec_binary_suffix(op_type));
                    assert(pstate_of(*p, *mem) =~= ParseState {
                        code: pstate_of(p1, m1).code + spec_binary_suffix(op_type),
                        ..pstate_of(p1, m1)
                    });
                }
            }
            Ok(())
        },
        Err(e) => {
            proof {
                assert forall|f: nat| f > old(p).measure() implies #[trigger] spec_binary_mirror(
                    old(p).src(),
                    st0,
                    f,
                ) == step_of(*p, *mem, r1g) by {
                    assert(spec_pp(old(p).src(), st0, spec_prec_rank(next_prec), f) == step_of(
                        p1,
                        m1,
                        r1g,
                    ));
                    assert(spec_prec_rank(next_prec) == spec_prec_rank(
                        spec_get_rule(op_type).precedence,
                    ) + 1);
                }
            }
            Err(e)
        },
    }
}

/// Grouping: `( expression )`.
fn grouping(p: &mut Parser, mem: &mut Memory, _can_assign: bool) -> (r: Result<(), CompilerError>)
    requires
        spec_pm_pre(*old(p), *old(mem)),
    ensures
        spec_pm_rel(*old(p), *old(mem), *final(p), *final(mem)),
        spec_sync_of(*final(p), r),
        (forall|f: nat| f > old(p).measure() ==> #[trigger] spec_grouping_mirror(
            old(p).src(),
            pstate_of(*old(p), *old(mem)),
            f,
        ) == step_of(*final(p), *final(mem), r)),
    decreases p.measure(), 2int,
{
    let ghost st0 = pstate_of(*old(p), *old(mem));
    let r1 = expression(p, mem);
    let ghost p1 = *p;
    let ghost m1 = *mem;
    let ghost r1g = r1;
    match r1 {
        Ok(_) => {
            let r2 = p.consume(TokenType::RightParen, "Expect ')' after expression.");
            proof {
                assert forall|f: nat| f > old(p).measure() implies #[trigger] spec_grouping_mirror(
                    old(p).src(),
                    st0,
                    f,
                ) == step_of(*p, *mem, r2) by {
                    assert(spec_expression_mirror(old(p).src(), st0, f) == PStep::Done {
                        st: pstate_of(p1, m1),
                    });
                    match r2 {
                        Ok(_) => {
                            assert(ParseState { c: p.cur_of(), ..pstate_of(p1, m1) }
                                =~= pstate_of(*p, *mem));
                        },
                        Err(e) => {
                            if e.spec_is_scan() {
                                assert(ParseState { c: p.cur_of(), ..pstate_of(p1, m1) }
                                    =~= pstate_of(*p, *mem));
                            } else {
                                assert(pstate_of(p1, m1) =~= pstate_of(*p, *mem));
                            }
                        },
                    }
                }
            }
            r2
        },
        Err(e) => {
            proof {
                assert forall|f: nat| f > old(p).measure() implies #[trigger] spec_grouping_mirror(
                    old(p).src(),
                    st0,
                    f,
                ) == step_of(*p, *mem, r1g) by {
                    assert(spec_expression_mirror(old(p).src(), st0, f) == step_of(p1, m1, r1g));
                }
            }
            Err(e)
        },
    }
}

/// Unary `-` and `!`: the operand compiles at unary precedence, then the
/// operator's opcode follows it.
fn unary(p: &mut Parser, mem: &mut Memory, _can_assign: bool) -> (r: Result<(), CompilerError>)
    requires
        spec_pm_pre(*old(p), *old(mem)),
        old(p).previous.id == TokenType::Bang || old(p).previous.id == TokenType::Minus,
    ensures
        spec_pm_rel(*old(p), *old(mem), *final(p), *final(mem)),
        spec_sync_of(*final(p), r),
        (r is Ok ==> final(p).chunk.code@.len() > 0 && final(p).chunk.code@.last()
            == spec_opcode_byte(
            if old(p).previous.id == TokenType::Bang {
                OpCode::Not
            } else {
                OpCode::Negate
            },
        )),
        (forall|f: nat| f > old(p).measure() ==> #[trigger] spec_unary_mirror(
            old(p).src(),
            pstate_of(*old(p), *old(mem)),
            f,
        ) == step_of(*final(p), *final(mem), r)),
    decreases p.measure(), 1int,
{
    let ghost st0 = pstate_of(*old(p), *old(mem));
    let operator_id = p.previous.id;
    let r1 = parse_precedence(p, mem, Precedence::Unary);
    let ghost p1 = *p;
    let ghost m1 = *mem;
    let ghost r1g = r1;
    match r1 {
        Ok(_) => {
            match operator_id {
                TokenType::Bang => p.emit_op(OpCode::Not),
                TokenType::Minus => p.emit_op(OpCode::Negate),
                _ => {
                    proof {
                        assert(false);
                    }
                },
            }
            proof {
                assert forall|f: nat| f > old(p).measure() implies #[trigger] spec_unary_mirror(
                    old(p).src(),
                    st0,
                    f,
                ) == step_of(*p, *mem, Result::<(), CompilerError>::Ok(())) by {
                    assert(spec_pp(old(p).src(), st0, spec_prec_rank(Precedence::Unary), f)
                        == step_of(p1, m1, r1g));
                    assert(pstate_of(*p, *mem) =~= ParseState {
                        code: pstate_of(p1, m1).code.push(p.chunk.code@.last()),
                        ..pstate_of(p1, m1)
                    });
                }
            }
            Ok(())
        },
        Err(e) => {
            proof {
                assert forall|f: nat| f > old(p).measure() implies #[trigger] spec_unary_mirror(
                    old(p).src(),
                    st0,
                    f,
                ) == step_of(*p, *mem, r1g) by {
                    assert(spec_pp(old(p).src(), st0, spec_prec_rank(Precedence::Unary), f)
                        == step_of(p1, m1, r1g));
                }
            }
            Err(e)
        },
    }
}

/// A numeric literal: its digits become a constant load. A value past the
/// 32-bit range is rejected with a compile error.
fn number(p: &mut Parser, mem: &mut Memory, _can_assign: bool) -> (r: Result<(), CompilerError>)
    requires
        spec_pm_pre(*old(p), *old(mem)),
        old(p).previous.id == TokenType::Number,
    ensures
        spec_pm_rel(*old(p), *old(mem), *final(p), *final(mem)),
        spec_sync_of(*final(p), r),
        *final(mem) == *old(mem),
        match r {
            Ok(_) => {
                &&& final(p).chunk.code@ == old(p).chunk.code@.push(
                    spec_opcode_byte(OpCode::Constant),
                ).push(old(p).chunk.constants@.len() as u8)
                &&& final(p).chunk.constants@ == old(p).chunk.constants@.push(
                    Type::Number(
                        spec_dec_val(
                            old(p).src().subrange(
                                old(p).previous.start as int,
                                old(p).previous.start + old(p).previous.len,
                            ),
                        ) as i32,
                    ),
                )
            },
            Err(_) => true,
        },
        spec_number_lit(old(p).src(), pstate_of(*old(p), *old(mem))) == step_of(
            *final(p),
            *final(mem),
            r,
        ),
{
    let ghost st0 = pstate_of(*old(p), *old(mem));
    let value_opt = {
        let lex = p.scanner.source_slice(p.previous.start, p.previous.len);
        proof {
            assert forall|i: int| 0 <= i < lex@.len() implies 48 <= #[trigger] lex@[i] <= 57 by {
                assert(lex@[i] == p.src()[p.previous.start + i]);
                assert(spec_is_digit(p.src()[p.previous.start + i]));
            }
        }
        parse_i32(lex)
    };
    match value_opt {
        Some(v) => {
            let r1 = p.emit_constant(Type::Number(v));
            match r1 {
                Ok(_) => {
                    proof {
                        let lexs = old(p).src().subrange(
                            old(p).previous.start as int,
                            old(p).previous.start + old(p).previous.len,
                        );
                        assert(spec_dec_val(lexs) <= i32::MAX);
                        assert(Type::Number(v) == Type::Number(spec_dec_val(lexs) as i32));
                        assert(p.chunk.code@ =~= st0.code + spec_const_load(st0.consts));
                        assert(pstate_of(*p, *mem) =~= ParseState {
                            code: st0.code + spec_const_load(st0.consts),
                            consts: st0.consts.push(Type::Number(spec_dec_val(lexs) as i32)),
                            ..st0
                        });
                        assert(spec_number_lit(old(p).src(), st0) == PStep::Done {
                            st: pstate_of(*p, *mem),
                        });
                    }
                    Ok(())
                },
                Err(e) => {
                    proof {
                        assert(pstate_of(*p, *mem) =~= st0);
                        assert(st0.consts.len() >= 256);
                        assert(spec_number_lit(old(p).src(), st0) is Fail);
                    }
                    Err(e)
                },
            }
        },
        None => {
            proof {
                assert(pstate_of(*p, *mem) =~= st0);
                let lexs = old(p).src().subrange(
                    old(p).previous.start as int,
                    old(p).previous.start + old(p).previous.len,
                );
                assert(spec_dec_val(lexs) > i32::MAX);
                assert(spec_number_lit(old(p).src(), st0) is Fail);
            }
            p.error("Invalid number.")
        },
    }
}

/// A string literal: its content (the lexeme without the enclosing quotes)
/// is interned once, and the resulting reference becomes a constant load.
fn string(p: &mut Parser, mem: &mut Memory, _can_assign: bool) -> (r: Result<(), CompilerError>)
    requires
        spec_pm_pre(*old(p), *old(mem)),
        old(p).previous.id == TokenType::String,
    ensures
        spec_pm_rel(*old(p), *old(mem), *final(p), *final(mem)),
        spec_sync_of(*final(p), r),
        match r {
            Ok(_) => {
                &&& final(p).chunk.code@ == old(p).chunk.code@.push(
                    spec_opcode_byte(OpCode::Constant),
                ).push(old(p).chunk.constants@.len() as u8)
                &&& final(p).chunk.constants@.len() == old(p).chunk.constants@.len() + 1
                &&& final(p).chunk.constants@.last() matches Type::Object(
                    ObjectPointer::String(ptr),
                ) && ptr.0 < final(mem).heap_view().len() && final(mem).heap_view()[ptr.0 as int]
                    == old(p).src().subrange(
                    old(p).previous.start + 1,
                    old(p).previous.start + old(p).previous.len - 1,
                )
            },
            Err(_) => true,
        },
        spec_string_lit(old(p).src(), pstate_of(*old(p), *old(mem))) == step_of(
            *final(p),
            *final(mem),
            r,
        ),
{
    let ghost st0 = pstate_of(*old(p), *old(mem));
    let ptr = {
        let lex = p.scanner.source_slice(p.previous.start + 1, p.previous.len - 2);
        mem.allocate_string(lex)
    };
    proof {
        lemma_consts_wf_mono(
            p.chunk.constants@,
            old(mem).heap_view().len(),
            mem.heap_view().len(),
        );
    }
    let r1 = p.emit_constant(Type::Object(ObjectPointer::String(ptr)));
    match r1 {
        Ok(_) => {
            proof {
                let t = st0.c.previous;
                let content = old(p).src().subrange(t.start + 1, t.start + t.len - 1);
                let idx = spec_intern(st0.heap, content).1;
                assert(ptr.0 as int == idx);
                assert(StringPointer(ptr.0) == StringPointer(idx as usize));
                assert(mem.heap_view() == spec_intern(st0.heap, content).0);
                assert(p.chunk.code@ =~= st0.code + spec_const_load(st0.consts));
                assert(pstate_of(*p, *mem) =~= ParseState {
                    code: st0.code + spec_const_load(st0.consts),
                    consts: st0.consts.push(
                        Type::Object(ObjectPointer::String(StringPointer(idx as usize))),
                    ),
                    heap: spec_intern(st0.heap, content).0,
                    ..st0
                });
                assert(spec_string_lit(old(p).src(), st0) == PStep::Done {
                    st: pstate_of(*p, *mem),
                });
            }
            Ok(())
        },
        Err(e) => {
            proof {
                let t = st0.c.previous;
                let content = old(p).src().subrange(t.start + 1, t.start + t.len - 1);
                assert(mem.heap_view() == spec_intern(st0.heap, content).0);
                assert(pstate_of(*p, *mem) =~= ParseState {
                    heap: spec_intern(st0.heap, content).0,
                    ..st0
                });
            }
            Err(e)
        },
    }
}

/// `true`, `false` and `nil` compile to their dedicated opcodes.
fn literal(p: &mut Parser, mem: &mut Memory, _can_assign: bool) -> (r: Result<(), CompilerError>)
    requires
        spec_pm_pre(*old(p), *old(mem)),
        old(p).previous.id == TokenType::True || old(p).previous.id == TokenType::False || old(
            p,
        ).previous.id == TokenType::Nil,
    ensures
        spec_pm_rel(*old(p), *old(mem), *final(p), *final(mem)),
        spec_sync_of(*final(p), r),
        *final(mem) == *old(mem),
        r is Ok,
        final(p).chunk.code@ == old(p).chunk.code@.push(
            spec_opcode_byte(
                match old(p).previous.id {
                    TokenType::True => OpCode::True,
                    TokenType::False => OpCode::False,
                    _ => OpCode::Nil,
                },
            ),
        ),
        spec_literal_kw(pstate_of(*old(p), *old(mem))) == step_of(*final(p), *final(mem), r),
{
    let ghost st0 = pstate_of(*old(p), *old(mem));
    match p.previous.id {
        TokenType::False => p.emit_op(OpCode::False),
        TokenType::True => p.emit_op(OpCode::True),
        TokenType::Nil => p.emit_op(OpCode::Nil),
        _ => {
            proof {
                assert(false);
            }
        },
    }
    proof {
        assert(pstate_of(*p, *mem) =~= ParseState {
            code: st0.code.push(p.chunk.code@.last()),
            ..st0
        });
    }
    Ok(())
}

/// An identifier in expression position: a global read — or, when an `=`
/// follows in a context that permits assignment, the right-hand expression
/// then a global write.
fn variable(p: &mut Parser, mem: &mut Memory, can_assign: bool) -> (r: Result<(), CompilerError>)
    requires
        spec_pm_pre(*old(p), *old(mem)),
        old(p).previous.id == TokenType::Identifier,
    ensures
        spec_pm_rel(*old(p), *old(mem), *final(p), *final(mem)),
        spec_sync_of(*final(p), r),
        (forall|f: nat| f > old(p).measure() ==> #[trigger] spec_variable_mirror(
            old(p).src(),
            pstate_of(*old(p), *old(mem)),
            can_assign,
            f,
        ) == step_of(*final(p), *final(mem), r)),
    decreases p.measure(), 3int,
{
    let ghost st0 = pstate_of(*old(p), *old(mem));
    let name = p.previous;
    let r1 = p.named_variable(mem, name, can_assign);
    proof {
        let ghost r1g = r1;
        assert forall|f: nat| f > old(p).measure() implies #[trigger] spec_variable_mirror(
            old(p).src(),
            st0,
            can_assign,
            f,
        ) == step_of(*p, *mem, r1g) by {
            assert(spec_named_variable(old(p).src(), st0, name, can_assign, f) == step_of(
                *p,
                *mem,
                r1g,
            ));
        }
    }
    r1
}

impl Parser {
    /// Compiles a read of, or an assignment to, the named global: the
    /// name is interned into the constant pool and the get/set opcode takes
    /// its index as operand.
    fn named_variable(&mut self, mem: &mut Memory, name: Token, can_assign: bool) -> (r: Result<
        (),
        CompilerError,
    >)
        requires
            spec_pm_pre(*old(self), *old(mem)),
            spec_token_sane(name, old(self).src()),
        ensures
            spec_pm_rel(*old(self), *old(mem), *final(self), *final(mem)),
            spec_sync_of(*final(self), r),
            (forall|f: nat| f > old(self).measure() ==> #[trigger] spec_named_variable(
                old(self).src(),
                pstate_of(*old(self), *old(mem)),
                name,
                can_assign,
                f,
            ) == step_of(*final(self), *final(mem), r)),
        decreases self.measure(), 2int,
    {
        let ghost st0 = pstate_of(*old(self), *old(mem));
        let assigning = if can_assign {
            match self.matches(TokenType::Equal) {
                Ok(hit) => hit,
                Err(e) => {
                    proof {
                        let ghost eg = *self;
                        assert forall|f: nat| f > old(self).measure()
                            implies #[trigger] spec_named_variable(
                            old(self).src(),
                            st0,
                            name,
                            can_assign,
                            f,
                        ) == (PStep::Abort { st: pstate_of(*self, *mem) }) by {
                            assert(spec_match_tok(old(self).src(), st0.c, TokenType::Equal)
                                matches TriOut::Halt { c } && c == self.cur_of());
                            assert(pstate_of(*self, *mem) =~= ParseState {
                                c: self.cur_of(),
                                ..st0
                            });
                        }
                    }
                    return Err(e);
                },
            }
        } else {
            false
        };
        let ghost p1 = *self;
        if assigning {
            let r2 = expression(self, mem);
            let ghost p2 = *self;
            let ghost m2 = *mem;
            let ghost r2g = r2;
            match r2 {
                Err(e) => {
                    proof {
                        assert forall|f: nat| f > old(self).measure()
                            implies #[trigger] spec_named_variable(
                            old(self).src(),
                            st0,
                            name,
                            can_assign,
                            f,
                        ) == step_of(*self, *mem, r2g) by {
                            assert(spec_match_tok(old(self).src(), st0.c, TokenType::Equal)
                                matches TriOut::Go { c } && c == p1.cur_of());
                            assert(ParseState { c: p1.cur_of(), ..st0 } =~= pstate_of(
                                p1,
                                *old(mem),
                            ));
                            assert(spec_expression_mirror(
                                old(self).src(),
                                pstate_of(p1, *old(mem)),
                                f,
                            ) == step_of(p2, m2, r2g));
                        }
                    }
                    return Err(e);
                },
                Ok(_) => {},
            }
        }
        let ghost p2 = *self;
        let ghost m2 = *mem;
        let op = if assigning {
            OpCode::SetGlobal
        } else {
            OpCode::GetGlobal
        };
        let r3 = self.identifier_constant(mem, name);
        let arg = match r3 {
            Ok(arg) => arg,
            Err(e) => {
                proof {
                    assert forall|f: nat| f > old(self).measure()
                        implies #[trigger] spec_named_variable(
                        old(self).src(),
                        st0,
                        name,
                        can_assign,
                        f,
                    ) == (PStep::Fail { st: pstate_of(*self, *mem) }) by {
                        if assigning {
                            assert(spec_match_tok(old(self).src(), st0.c, TokenType::Equal)
                                matches TriOut::Go { c } && c == p1.cur_of());
                            assert(ParseState { c: p1.cur_of(), ..st0 } =~= pstate_of(
                                p1,
                                *old(mem),
                            ));
                            assert(spec_expression_mirror(
                                old(self).src(),
                                pstate_of(p1, *old(mem)),
                                f,
                            ) == (PStep::Done { st: pstate_of(p2, m2) }));
                        }
                        assert(spec_named_end(old(self).src(), pstate_of(p2, m2), name, op)
                            == (PStep::Fail { st: pstate_of(*self, *mem) }));
                    }
                }
                return Err(e);
            },
        };
        self.emit_with_operand(op, arg);
        proof {
            assert forall|f: nat| f > old(self).measure() implies #[trigger] spec_named_variable(
                old(self).src(),
                st0,
                name,
                can_assign,
                f,
            ) == (PStep::Done { st: pstate_of(*self, *mem) }) by {
                if assigning {
                    assert(spec_match_tok(old(self).src(), st0.c, TokenType::Equal)
                        matches TriOut::Go { c } && c == p1.cur_of());
                    assert(ParseState { c: p1.cur_of(), ..st0 } =~= pstate_of(p1, *old(mem)));
                    assert(spec_expression_mirror(old(self).src(), pstate_of(p1, *old(mem)), f)
                        == (PStep::Done { st: pstate_of(p2, m2) }));
                }
                let st2 = pstate_of(p2, m2);
                let (st3, o) = spec_ident_const(old(self).src(), st2, name);
                assert(o matches Some(idx) && idx == arg);
                assert(self.chunk.code@ =~= st3.code + seq![spec_opcode_byte(op), arg]);
                assert(pstate_of(*self, *mem) =~= ParseState {
                    code: st3.code + seq![spec_opcode_byte(op), arg],
                    ..st3
                });
            }
        }
        Ok(())
    }
}

/// `print expression ;` — evaluates, then pops and displays.
fn print_statement(p: &mut Parser, mem: &mut Memory) -> (r: Result<(), CompilerError>)
    requires
        spec_pm_pre(*old(p), *old(mem)),
    ensures
        spec_pm_rel(*old(p), *old(mem), *final(p), *final(mem)),
        spec_sync_of(*final(p), r),
        old(p).current.id != TokenType::EOF ==> final(p).measure() < old(p).measure(),
        (r is Ok ==> final(p).chunk.code@.len() > 0 && final(p).chunk.code@.last()
            == spec_opcode_byte(OpCode::Print)),
        (forall|f: nat| f > old(p).measure() ==> #[trigger] spec_print_stmt_mirror(
            old(p).src(),
            pstate_of(*old(p), *old(mem)),
            f,
        ) == step_of(*final(p), *final(mem), r)),
{
    let ghost st0 = pstate_of(*old(p), *old(mem));
    let r1 = expression(p, mem);
    let ghost p1 = *p;
    let ghost m1 = *mem;
    let ghost r1g = r1;
    if r1.is_err() {
        proof {
            assert forall|f: nat| f > old(p).measure() implies #[trigger] spec_print_stmt_mirror(
                old(p).src(),
                st0,
                f,
            ) == step_of(*p, *mem, r1g) by {
                assert(spec_expression_mirror(old(p).src(), st0, f) == step_of(p1, m1, r1g));
            }
        }
        return r1;
    }
    let r2 = p.consume(TokenType::Semicolon, "Expect ';' after value.");
    let ghost r2g = r2;
    if r2.is_err() {
        proof {
            assert forall|f: nat| f > old(p).measure() implies #[trigger] spec_print_stmt_mirror(
                old(p).src(),
                st0,
                f,
            ) == step_of(*p, *mem, r2g) by {
                assert(spec_expression_mirror(old(p).src(), st0, f) == step_of(p1, m1, r1g));
                assert(pstate_of(*p, *mem) =~= ParseState { c: p.cur_of(), ..pstate_of(p1, m1) });
            }
        }
        return r2;
    }
    p.emit_op(OpCode::Print);
    proof {
        assert forall|f: nat| f > old(p).measure() implies #[trigger] spec_print_stmt_mirror(
            old(p).src(),
            st0,
            f,
        ) == (PStep::Done { st: pstate_of(*p, *mem) }) by {
            assert(spec_expression_mirror(old(p).src(), st0, f) == step_of(p1, m1, r1g));
            assert(pstate_of(*p, *mem) =~= ParseState {
                c: p.cur_of(),
                code: pstate_of(p1, m1).code.push(spec_opcode_byte(OpCode::Print)),
                ..pstate_of(p1, m1)
            });
        }
    }
    Ok(())
}

/// `expression ;` — evaluates, then discards the unused result so the stack
/// stays balanced across statements.
fn expression_statement(p: &mut Parser, mem: &mut Memory) -> (r: Result<(), CompilerError>)
    requires
        spec_pm_pre(*old(p), *old(mem)),
    ensures
        spec_pm_rel(*old(p), *old(mem), *final(p), *final(mem)),
        spec_sync_of(*final(p), r),
        old(p).current.id != TokenType::EOF ==> final(p).measure() < old(p).measure(),
        (r is Ok ==> final(p).chunk.code@.len() > 0 && final(p).chunk.code@.last()
            == spec_opcode_byte(OpCode::Pop)),
        (forall|f: nat| f > old(p).measure() ==> #[trigger] spec_expr_stmt_mirror(
            old(p).src(),
            pstate_of(*old(p), *old(mem)),
            f,
        ) == step_of(*final(p), *final(mem), r)),
{
    let ghost st0 = pstate_of(*old(p), *old(mem));
    let r1 = expression(p, mem);
    let ghost p1 = *p;
    let ghost m1 = *mem;
    let ghost r1g = r1;
    if r1.is_err() {
        proof {
            assert forall|f: nat| f > old(p).measure() implies #[trigger] spec_expr_stmt_mirror(
                old(p).src(),
                st0,
                f,
            ) == step_of(*p, *mem, r1g) by {
                assert(spec_expression_mirror(old(p).src(), st0, f) == step_of(p1, m1, r1g));
            }
        }
        return r1;
    }
    let r2 = p.consume(TokenType::Semicolon, "Expect ';' after expression.");
    let ghost r2g = r2;
    if r2.is_err() {
        proof {
            assert forall|f: nat| f > old(p).measure() implies #[trigger] spec_expr_stmt_mirror(
                old(p).src(),
                st0,
                f,
            ) == step_of(*p, *mem, r2g) by {
                assert(spec_expression_mirror(old(p).src(), st0, f) == step_of(p1, m1, r1g));
                assert(pstate_of(*p, *mem) =~= ParseState { c: p.cur_of(), ..pstate_of(p1, m1) });
            }
        }
        return r2;
    }
    p.emit_op(OpCode::Pop);
    proof {
        assert forall|f: nat| f > old(p).measure() implies #[trigger] spec_expr_stmt_mirror(
            old(p).src(),
            st0,
            f,
        ) == (PStep::Done { st: pstate_of(*p, *mem) }) by {
            assert(spec_expression_mirror(old(p).src(), st0, f) == step_of(p1, m1, r1g));
            assert(pstate_of(*p, *mem) =~= ParseState {
                c: p.cur_of(),
                code: pstate_of(p1, m1).code.push(spec_opcode_byte(OpCode::Pop)),
                ..pstate_of(p1, m1)
            });
        }
    }
    Ok(())
}

/// A statement: `print` or a bare expression statement.
fn statement(p: &mut Parser, mem: &mut Memory) -> (r: Result<(), CompilerError>)
    requires
        spec_pm_pre(*old(p), *old(mem)),
    ensures
        spec_pm_rel(*old(p), *old(mem), *final(p), *final(mem)),
        spec_sync_of(*final(p), r),
        old(p).current.id != TokenType::EOF ==> final(p).measure() < old(p).measure(),
        (forall|f: nat| f > old(p).measure() ==> #[trigger] spec_statement_mirror(
            old(p).src(),
            pstate_of(*old(p), *old(mem)),
            f,
        ) == step_of(*final(p), *final(mem), r)),
{
    let ghost st0 = pstate_of(*old(p), *old(mem));
    let hit = match p.matches(TokenType::Print) {
        Ok(hit) => hit,
        Err(e) => {
            proof {
                assert forall|f: nat| f > old(p).measure() implies #[trigger] spec_statement_mirror(
                    old(p).src(),
                    st0,
                    f,
                ) == (PStep::Abort { st: pstate_of(*p, *mem) }) by {
                    assert(spec_match_tok(old(p).src(), st0.c, TokenType::Print)
                        matches TriOut::Halt { c } && c == p.cur_of());
                    assert(pstate_of(*p, *mem) =~= ParseState { c: p.cur_of(), ..st0 });
                }
            }
            return Err(e);
        },
    };
    let ghost p1 = *p;
    let r1 = if hit {
        print_statement(p, mem)
    } else {
        expression_statement(p, mem)
    };
    proof {
        let ghost r1g = r1;
        assert forall|f: nat| f > old(p).measure() implies #[trigger] spec_statement_mirror(
            old(p).src(),
            st0,
            f,
        ) == step_of(*p, *mem, r1g) by {
            if hit {
                assert(spec_match_tok(old(p).src(), st0.c, TokenType::Print)
                    matches TriOut::Go { c } && c == p1.cur_of());
                assert(ParseState { c: p1.cur_of(), ..st0 } =~= pstate_of(p1, *old(mem)));
                assert(spec_print_stmt_mirror(old(p).src(), pstate_of(p1, *old(mem)), f)
                    == step_of(*p, *mem, r1g));
            } else {
                assert(spec_match_tok(old(p).src(), st0.c, TokenType::Print)
                    matches TriOut::Miss { c });
                assert(spec_expr_stmt_mirror(old(p).src(), st0, f) == step_of(*p, *mem, r1g));
            }
        }
    }
    r1
}

/// Consumes a variable name and interns it, yielding its constant index.
fn parse_variable(p: &mut Parser, mem: &mut Memory, message: &str) -> (r: Result<
    u8,
    CompilerError,
>)
    requires
        spec_pm_pre(*old(p), *old(mem)),
    ensures
        spec_pm_rel(*old(p), *old(mem), *final(p), *final(mem)),
        spec_sync_of(*final(p), r),
        match r {
            Ok(idx) => idx < final(p).chunk.constants@.len() && final(p).chunk.constants@[idx as int] matches Type::Object(_),
            Err(_) => true,
        },
        ({
            let (s, sidx) = spec_parse_var_mirror(old(p).src(), pstate_of(*old(p), *old(mem)));
            match r {
                Ok(idx) => s == (PStep::Done { st: pstate_of(*final(p), *final(mem)) }) && sidx
                    == idx,
                Err(e) => s == (if e.spec_is_scan() {
                    PStep::Abort { st: pstate_of(*final(p), *final(mem)) }
                } else {
                    PStep::Fail { st: pstate_of(*final(p), *final(mem)) }
                }),
            }
        }),
{
    let ghost st0 = pstate_of(*old(p), *old(mem));
    let r1 = p.consume(TokenType::Identifier, message);
    let ghost p1 = *p;
    match r1 {
        Err(e) => {
            proof {
                if e.spec_is_scan() {
                    assert(spec_consume_tok(old(p).src(), st0.c, TokenType::Identifier)
                        matches TriOut::Halt { c } && c == p.cur_of());
                    assert(pstate_of(*p, *mem) =~= ParseState { c: p.cur_of(), ..st0 });
                } else {
                    assert(spec_consume_tok(old(p).src(), st0.c, TokenType::Identifier)
                        matches TriOut::Miss { c });
                    assert(pstate_of(*p, *mem) =~= st0);
                }
            }
            return Err(e);
        },
        Ok(_) => {},
    }
    proof {
        assert(spec_consume_tok(old(p).src(), st0.c, TokenType::Identifier)
            matches TriOut::Go { c } && c == p1.cur_of());
        assert(ParseState { c: p1.cur_of(), ..st0 } =~= pstate_of(p1, *old(mem)));
    }
    let name = p.previous;
    proof {
        assert(name == p1.cur_of().previous);
    }
    p.identifier_constant(mem, name)
}

/// `bind name (= expression)? ;` — the initializer (or nil) is computed,
/// then bound to the global name.
fn var_declaration(p: &mut Parser, mem: &mut Memory) -> (r: Result<(), CompilerError>)
    requires
        spec_pm_pre(*old(p), *old(mem)),
    ensures
        spec_pm_rel(*old(p), *old(mem), *final(p), *final(mem)),
        spec_sync_of(*final(p), r),
        (r is Ok ==> final(p).chunk.code@.len() >= 2 && final(p).chunk.code@[final(p).chunk.code@.len()
            - 2] == spec_opcode_byte(OpCode::DefineGlobal)),
        (forall|f: nat| f > old(p).measure() ==> #[trigger] spec_var_decl_mirror(
            old(p).src(),
            pstate_of(*old(p), *old(mem)),
            f,
        ) == step_of(*final(p), *final(mem), r)),
{
    let ghost st0 = pstate_of(*old(p), *old(mem));
    let r0 = parse_variable(p, mem, "Expect variable name.");
    let global = match r0 {
        Ok(g) => g,
        Err(e) => {
            proof {
                let ghost eg = e.spec_is_scan();
                assert forall|f: nat| f > old(p).measure() implies #[trigger] spec_var_decl_mirror(
                    old(p).src(),
                    st0,
                    f,
                ) == (if eg {
                    PStep::Abort { st: pstate_of(*p, *mem) }
                } else {
                    PStep::Fail { st: pstate_of(*p, *mem) }
                }) by {
                    let (s, sidx) = spec_parse_var_mirror(old(p).src(), st0);
                    assert(s == (if eg {
                        PStep::Abort { st: pstate_of(*p, *mem) }
                    } else {
                        PStep::Fail { st: pstate_of(*p, *mem) }
                    }));
                }
            }
            return Err(e);
        },
    };
    let ghost p1 = *p;
    let ghost m1 = *mem;
    let hit = match p.matches(TokenType::Equal) {
        Ok(hit) => hit,
        Err(e) => {
            proof {
                assert forall|f: nat| f > old(p).measure() implies #[trigger] spec_var_decl_mirror(
                    old(p).src(),
                    st0,
                    f,
                ) == (PStep::Abort { st: pstate_of(*p, *mem) }) by {
                    assert(spec_parse_var_mirror(old(p).src(), st0) == (PStep::Done {
                        st: pstate_of(p1, m1),
                    }, global));
                    assert(spec_match_tok(old(p).src(), p1.cur_of(), TokenType::Equal)
                        matches TriOut::Halt { c } && c == p.cur_of());
                    assert(pstate_of(*p, *mem) =~= ParseState {
                        c: p.cur_of(),
                        ..pstate_of(p1, m1)
                    });
                }
            }
            return Err(e);
        },
    };
    let ghost p2 = *p;
    if hit {
        let r1 = expression(p, mem);
        let ghost r1g = r1;
        if r1.is_err() {
            proof {
                assert forall|f: nat| f > old(p).measure() implies #[trigger] spec_var_decl_mirror(
                    old(p).src(),
                    st0,
                    f,
                ) == step_of(*p, *mem, r1g) by {
                    assert(spec_parse_var_mirror(old(p).src(), st0) == (PStep::Done {
                        st: pstate_of(p1, m1),
                    }, global));
                    assert(spec_match_tok(old(p).src(), p1.cur_of(), TokenType::Equal)
                        matches TriOut::Go { c } && c == p2.cur_of());
                    assert(ParseState { c: p2.cur_of(), ..pstate_of(p1, m1) } =~= pstate_of(
                        p2,
                        m1,
                    ));
                    assert(spec_expression_mirror(old(p).src(), pstate_of(p2, m1), f) == step_of(
                        *p,
                        *mem,
                        r1g,
                    ));
                }
            }
            return r1;
        }
    } else {
        p.emit_op(OpCode::Nil);
    }
    let ghost p3 = *p;
    let ghost m3 = *mem;
    proof {
        assert forall|f: nat| f > old(p).measure() implies #[trigger] spec_var_decl_mirror(
            old(p).src(),
            st0,
            f,
        ) == spec_var_decl_end(old(p).src(), pstate_of(p3, m3), global) by {
            assert(spec_parse_var_mirror(old(p).src(), st0) == (PStep::Done {
                st: pstate_of(p1, m1),
            }, global));
            if hit {
                assert(spec_match_tok(old(p).src(), p1.cur_of(), TokenType::Equal)
                    matches TriOut::Go { c } && c == p2.cur_of());
                assert(ParseState { c: p2.cur_of(), ..pstate_of(p1, m1) } =~= pstate_of(p2, m1));
                assert(spec_expression_mirror(old(p).src(), pstate_of(p2, m1), f)
                    == (PStep::Done { st: pstate_of(p3, m3) }));
            } else {
                assert(spec_match_tok(old(p).src(), p1.cur_of(), TokenType::Equal)
                    matches TriOut::Miss { c });
                assert(pstate_of(p3, m3) =~= ParseState {
                    code: pstate_of(p1, m1).code.push(spec_opcode_byte(OpCode::Nil)),
                    ..pstate_of(p1, m1)
                });
            }
        }
    }
    let r2 = p.consume(TokenType::Semicolon, "Expect ';' after variable declaration.");
    let ghost r2g = r2;
    if r2.is_err() {
        proof {
            assert forall|f: nat| f > old(p).measure() implies #[trigger] spec_var_decl_mirror(
                old(p).src(),
                st0,
                f,
            ) == step_of(*p, *mem, r2g) by {
                assert(spec_var_decl_end(old(p).src(), pstate_of(p3, m3), global) == step_of(
                    *p,
                    *mem,
                    r2g,
                ));
            }
        }
        return r2;
    }
    p.define_variable(global);
    proof {
        assert forall|f: nat| f > old(p).measure() implies #[trigger] spec_var_decl_mirror(
            old(p).src(),
            st0,
            f,
        ) == (PStep::Done { st: pstate_of(*p, *mem) }) by {
            assert(pstate_of(*p, *mem) =~= ParseState {
                c: p.cur_of(),
                code: pstate_of(p3, m3).code + seq![
                    spec_opcode_byte(OpCode::DefineGlobal),
                    global,
                ],
                ..pstate_of(p3, m3)
            });
            assert(spec_var_decl_end(old(p).src(), pstate_of(p3, m3), global) == (PStep::Done {
                st: pstate_of(*p, *mem),
            }));
        }
    }
    Ok(())
}

/// A declaration: `bind` or any statement.
fn declaration(p: &mut Parser, mem: &mut Memory) -> (r: Result<(), CompilerError>)
    requires
        spec_pm_pre(*old(p), *old(mem)),
    ensures
        spec_pm_rel(*old(p), *old(mem), *final(p), *final(mem)),
        spec_sync_of(*final(p), r),
        old(p).current.id != TokenType::EOF ==> final(p).measure() < old(p).measure(),
        (forall|f: nat| f > old(p).measure() ==> #[trigger] spec_declaration_mirror(
            old(p).src(),
            pstate_of(*old(p), *old(mem)),
            f,
        ) == step_of(*final(p), *final(mem), r)),
{
    let ghost st0 = pstate_of(*old(p), *old(mem));
    let hit = match p.matches(TokenType::Bind) {
        Ok(hit) => hit,
        Err(e) => {
            proof {
                assert forall|f: nat| f > old(p).measure()
                    implies #[trigger] spec_declaration_mirror(
                    old(p).src(),
                    st0,
                    f,
                ) == (PStep::Abort { st: pstate_of(*p, *mem) }) by {
                    assert(spec_match_tok(old(p).src(), st0.c, TokenType::Bind)
                        matches TriOut::Halt { c } && c == p.cur_of());
                    assert(pstate_of(*p, *mem) =~= ParseState { c: p.cur_of(), ..st0 });
                }
            }
            return Err(e);
        },
    };
    let ghost p1 = *p;
    let r1 = if hit {
        var_declaration(p, mem)
    } else {
        statement(p, mem)
    };
    proof {
        let ghost r1g = r1;
        assert forall|f: nat| f > old(p).measure() implies #[trigger] spec_declaration_mirror(
            old(p).src(),
            st0,
            f,
        ) == step_of(*p, *mem, r1g) by {
            if hit {
                assert(spec_match_tok(old(p).src(), st0.c, TokenType::Bind)
                    matches TriOut::Go { c } && c == p1.cur_of());
                assert(ParseState { c: p1.cur_of(), ..st0 } =~= pstate_of(p1, *old(mem)));
                assert(spec_var_decl_mirror(old(p).src(), pstate_of(p1, *old(mem)), f)
                    == step_of(*p, *mem, r1g));
            } else {
                assert(spec_match_tok(old(p).src(), st0.c, TokenType::Bind)
                    matches TriOut::Miss { c });
                assert(spec_statement_mirror(old(p).src(), st0, f) == step_of(*p, *mem, r1g));
            }
        }
    }
    r1
}

/// Whether a source's very first token is already the end marker: the
/// source holds nothing but blanks and comments.
pub open spec fn spec_source_is_blank(src: Seq<u8>) -> bool {
    spec_next_token(src, 0, 1, false).item matches ScanItem::Tok { id, start, end, line }
        && id == TokenType::EOF
}

/// Compiles a whole source into a chunk, interning names and string
/// literals into the given memory. Parse errors are collected — after each
/// one the parser resynchronizes at a statement boundary — and a scan error
/// aborts at once; the chunk comes back only when no error was recorded, so
/// an erroneous source never yields anything executable. Globals are never
/// touched; the heap only gains interned strings.
#[verifier::rlimit(100)]
pub fn compile(source: &[u8], mem: &mut Memory) -> (r: Result<Chunk, Vec<CompilerError>>)
    requires
        old(mem).wf(),
        source@.len() < u32::MAX,
    ensures
        final(mem).wf(),
        final(mem).globals_seq() == old(mem).globals_seq(),
        final(mem).globals_view() == old(mem).globals_view(),
        spec_seq_extends(final(mem).heap_view(), old(mem).heap_view()),
        match r {
            Ok(chunk) => {
                &&& chunk.wf()
                &&& spec_code_wf(chunk.code@, chunk.constants@)
                &&& spec_consts_wf(chunk.constants@, final(mem).heap_view().len())
                &&& chunk.code@.len() > 0
                &&& chunk.code@.last() == spec_opcode_byte(OpCode::Return)
            },
            Err(errs) => errs@.len() > 0,
        },
        (spec_source_is_blank(source@) ==> (r matches Ok(chunk) && chunk.code@ == seq![
            spec_opcode_byte(OpCode::Return),
        ] && chunk.constants@.len() == 0)),
        ({
            let co = spec_compile(source@, old(mem).heap_view());
            match r {
                Ok(chunk) => co matches CompOut::COk { code, consts, heap } && chunk.code@ == code
                    && chunk.constants@ == consts && final(mem).heap_view() == heap,
                Err(_) => co is CRejected,
            }
        }),
{
    let mut parser = Parser::new(source);
    let mut errors: Vec<CompilerError> = Vec::new();
    let ghost c00 = ScanCur {
        pos: 0,
        line: 1,
        at_end: false,
        previous: (Token { id: TokenType::EOF, start: 0, len: 0, line: 0 }),
        current: (Token { id: TokenType::EOF, start: 0, len: 0, line: 0 }),
    };
    proof {
        assert(parser.cur_of() =~= c00);
    }
    let r0 = parser.next();
    match r0 {
        Err(e) => {
            proof {
                assert(!spec_advance(source@, c00).1);
                assert(spec_compile(source@, old(mem).heap_view()) is CRejected);
            }
            errors.push(e);
            return Err(errors);
        },
        Ok(_) => {},
    }
    let ghost st1g = ParseState {
        c: spec_advance(source@, c00).0,
        code: Seq::empty(),
        consts: Seq::empty(),
        heap: old(mem).heap_view(),
    };
    let ghost fuel0 = spec_compile_fuel(source@);
    let ghost mut used: nat = 0nat;
    proof {
        assert(spec_advance(source@, c00).1);
        assert(pstate_of(parser, *mem) =~= st1g);
        assert(parser.measure() <= 2 * source@.len() + 1);
    }
    loop
        invariant_except_break
            spec_source_is_blank(source@) ==> parser.current.id == TokenType::EOF
                && parser.chunk.code@.len() == 0 && parser.chunk.constants@.len() == 0
                && errors@.len() == 0,
            spec_compile_loop(source@, st1g, false, fuel0) == spec_compile_loop(
                source@,
                pstate_of(parser, *mem),
                errors@.len() > 0,
                (fuel0 - used) as nat,
            ),
        invariant
            parser.wf(),
            mem.wf(),
            spec_consts_wf(parser.chunk.constants@, mem.heap_view().len()),
            parser.src() == source@,
            spec_seq_extends(mem.heap_view(), old(mem).heap_view()),
            mem.globals_seq() == old(mem).globals_seq(),
            c00 == (ScanCur {
                pos: 0,
                line: 1,
                at_end: false,
                previous: (Token { id: TokenType::EOF, start: 0, len: 0, line: 0 }),
                current: (Token { id: TokenType::EOF, start: 0, len: 0, line: 0 }),
            }),
            spec_advance(source@, c00).1,
            st1g == (ParseState {
                c: spec_advance(source@, c00).0,
                code: Seq::empty(),
                consts: Seq::empty(),
                heap: old(mem).heap_view(),
            }),
            fuel0 == spec_compile_fuel(source@),
            used + parser.measure() < fuel0,
        ensures
            parser.wf(),
            mem.wf(),
            spec_consts_wf(parser.chunk.constants@, mem.heap_view().len()),
            spec_seq_extends(mem.heap_view(), old(mem).heap_view()),
            mem.globals_seq() == old(mem).globals_seq(),
            spec_source_is_blank(source@) ==> parser.chunk.code@.len() == 0
                && parser.chunk.constants@.len() == 0 && errors@.len() == 0,
            spec_compile_loop(source@, st1g, false, fuel0) == (LoopOut::Finished {
                st: pstate_of(parser, *mem),
                erred: errors@.len() > 0,
            }),
            st1g == (ParseState {
                c: spec_advance(source@, c00).0,
                code: Seq::empty(),
                consts: Seq::empty(),
                heap: old(mem).heap_view(),
            }),
            c00 == (ScanCur {
                pos: 0,
                line: 1,
                at_end: false,
                previous: (Token { id: TokenType::EOF, start: 0, len: 0, line: 0 }),
                current: (Token { id: TokenType::EOF, start: 0, len: 0, line: 0 }),
            }),
            spec_advance(source@, c00).1,
            fuel0 == spec_compile_fuel(source@),
        decreases parser.measure(),
    {
        let ghost p_it = parser;
        let ghost m_it = *mem;
        let ghost erred_it = errors@.len() > 0;
        match parser.matches(TokenType::EOF) {
            Err(e) => {
                proof {
                    assert(spec_match_tok(source@, p_it.cur_of(), TokenType::EOF)
                        matches TriOut::Halt { c } && c == parser.cur_of());
                    assert(spec_compile_loop(
                        source@,
                        pstate_of(p_it, m_it),
                        erred_it,
                        (fuel0 - used) as nat,
                    ) is Halted);
                    assert(spec_compile(source@, old(mem).heap_view()) is CRejected);
                }
                errors.push(e);
                return Err(errors);
            },
            Ok(true) => {
                proof {
                    assert(spec_match_tok(source@, p_it.cur_of(), TokenType::EOF)
                        matches TriOut::Go { c } && c == parser.cur_of());
                    assert(ParseState { c: parser.cur_of(), ..pstate_of(p_it, m_it) }
                        =~= pstate_of(parser, *mem));
                    assert(spec_compile_loop(
                        source@,
                        pstate_of(p_it, m_it),
                        erred_it,
                        (fuel0 - used) as nat,
                    ) == (LoopOut::Finished {
                        st: pstate_of(parser, *mem),
                        erred: errors@.len() > 0,
                    }));
                }
                break ;
            },
            Ok(false) => {},
        }
        let r_d = declaration(&mut parser, mem);
        let ghost r_dg = r_d;
        let ghost p_d = parser;
        let ghost m_d = *mem;
        proof {
            assert(spec_match_tok(source@, p_it.cur_of(), TokenType::EOF)
                matches TriOut::Miss { c });
            assert((fuel0 - used) as nat > p_it.measure());
            assert(spec_declaration_mirror(source@, pstate_of(p_it, m_it), (fuel0 - used) as nat)
                == step_of(p_d, m_d, r_dg));
        }
        match r_d {
            Ok(_) => {
                proof {
                    assert(spec_compile_loop(
                        source@,
                        pstate_of(p_it, m_it),
                        erred_it,
                        (fuel0 - used) as nat,
                    ) == spec_compile_loop(
                        source@,
                        pstate_of(parser, *mem),
                        erred_it,
                        ((fuel0 - used) as nat - 1) as nat,
                    ));
                    used = used + 1;
                }
            },
            Err(e) => {
                let scan = e.is_scan();
                errors.push(e);
                if scan {
                    proof {
                        assert(spec_compile_loop(
                            source@,
                            pstate_of(p_it, m_it),
                            erred_it,
                            (fuel0 - used) as nat,
                        ) is Halted);
                        assert(spec_compile(source@, old(mem).heap_view()) is CRejected);
                    }
                    return Err(errors);
                }
                let ghost p_e = parser;
                match parser.synchronize() {
                    Err(e2) => {
                        proof {
                            assert(spec_sync_mirror(
                                source@,
                                pstate_of(p_d, m_d),
                                (fuel0 - used) as nat,
                            ) matches PStep::Abort { st });
                            assert(spec_compile_loop(
                                source@,
                                pstate_of(p_it, m_it),
                                erred_it,
                                (fuel0 - used) as nat,
                            ) is Halted);
                            assert(spec_compile(source@, old(mem).heap_view()) is CRejected);
                        }
                        errors.push(e2);
                        return Err(errors);
                    },
                    Ok(_) => {
                        proof {
                            assert(spec_sync_mirror(
                                source@,
                                pstate_of(p_d, m_d),
                                (fuel0 - used) as nat,
                            ) == (PStep::Done { st: pstate_of(parser, *mem) }));
                            assert(spec_compile_loop(
                                source@,
                                pstate_of(p_it, m_it),
                                erred_it,
                                (fuel0 - used) as nat,
                            ) == spec_compile_loop(
                                source@,
                                pstate_of(parser, *mem),
                                true,
                                ((fuel0 - used) as nat - 1) as nat,
                            ));
                            used = used + 1;
                        }
                    },
                }
            },
        }
    }
    let ghost p_fin = parser;
    let ghost m_fin = *mem;
    parser.emit_return();
    proof {
        if spec_source_is_blank(source@) {
            assert(parser.chunk.code@ =~= seq![spec_opcode_byte(OpCode::Return)]);
        }
        assert(parser.chunk.code@ == pstate_of(p_fin, m_fin).code.push(
            spec_opcode_byte(OpCode::Return),
        ));
    }
    if errors.len() == 0 {
        proof {
            assert(spec_compile(source@, old(mem).heap_view()) == (CompOut::COk {
                code: pstate_of(p_fin, m_fin).code.push(spec_opcode_byte(OpCode::Return)),
                consts: pstate_of(p_fin, m_fin).consts,
                heap: pstate_of(p_fin, m_fin).heap,
            }));
        }
        Ok(parser.chunk)
    } else {
        proof {
            assert(spec_compile(source@, old(mem).heap_view()) is CRejected);
        }
        Err(errors)
    }
}

/// The context part of a compile diagnostic: the offending lexeme, or
/// `at end` at the end marker.
pub open spec fn spec_error_context(src: Seq<u8>, t: Token) -> Seq<u8> {
    if t.id == TokenType::EOF {
        "at end".spec_bytes()
    } else {
        "at '".spec_bytes() + src.subrange(t.start as int, t.start + t.len) + "'".spec_bytes()
    }
}

/// A compile diagnostic: context, colon, message, newline.
pub open spec fn spec_error_message(src: Seq<u8>, t: Token, msg: Seq<u8>) -> Seq<u8> {
    spec_error_context(src, t) + ": ".spec_bytes() + msg + "\n".spec_bytes()
}

} // verus!
