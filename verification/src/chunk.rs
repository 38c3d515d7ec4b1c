//! The compiled program unit: a byte-code sequence, a run-length-encoded
//! line-number table, and a constant pool referenced by one-byte indices
//! (so a chunk holds at most 256 constants).
//!
//! The opcode set is a closed enumeration with an explicit numeric encoding,
//! written out below in `to_byte` / `decode`. Every opcode is one byte;
//! `Constant`, `DefineGlobal`, `GetGlobal` and `SetGlobal` carry one trailing
//! operand byte (a constant-pool index), all others carry none.

use vstd::prelude::*;
use crate::value::Type;

verus! {

/// One instruction of the bytecode instruction set.
#[derive(Clone, Copy, Debug, PartialEq, Eq, Structural)]
pub enum OpCode {
    Return,
    Constant,
    Add,
    Subtract,
    Divide,
    Multiply,
    Negate,
    Not,
    Equal,
    Greater,
    Less,
    True,
    False,
    Nil,
    Print,
    Pop,
    DefineGlobal,
    GetGlobal,
    SetGlobal,
}

/// The byte encoding an opcode.
pub open spec fn spec_opcode_byte(op: OpCode) -> u8 {
    match op {
        OpCode::Return => 0,
        OpCode::Constant => 1,
        OpCode::Add => 2,
        OpCode::Subtract => 3,
        OpCode::Divide => 4,
        OpCode::Multiply => 5,
        OpCode::Negate => 6,
        OpCode::Not => 7,
        OpCode::Equal => 8,
        OpCode::Greater => 9,
        OpCode::Less => 10,
        OpCode::True => 11,
        OpCode::False => 12,
        OpCode::Nil => 13,
        OpCode::Print => 14,
        OpCode::Pop => 15,
        OpCode::DefineGlobal => 16,
        OpCode::GetGlobal => 17,
        OpCode::SetGlobal => 18,
    }
}

/// The opcode a byte decodes to, if any.
pub open spec fn spec_decode(byte: u8) -> Option<OpCode> {
    if byte == 0 {
        Some(OpCode::Return)
    } else if byte == 1 {
        Some(OpCode::Constant)
    } else if byte == 2 {
        Some(OpCode::Add)
    } else if byte == 3 {
        Some(OpCode::Subtract)
    } else if byte == 4 {
        Some(OpCode::Divide)
    } else if byte == 5 {
        Some(OpCode::Multiply)
    } else if byte == 6 {
        Some(OpCode::Negate)
    } else if byte == 7 {
        Some(OpCode::Not)
    } else if byte == 8 {
        Some(OpCode::Equal)
    } else if byte == 9 {
        Some(OpCode::Greater)
    } else if byte == 10 {
        Some(OpCode::Less)
    } else if byte == 11 {
        Some(OpCode::True)
    } else if byte == 12 {
        Some(OpCode::False)
    } else if byte == 13 {
        Some(OpCode::Nil)
    } else if byte == 14 {
        Some(OpCode::Print)
    } else if byte == 15 {
        Some(OpCode::Pop)
    } else if byte == 16 {
        Some(OpCode::DefineGlobal)
    } else if byte == 17 {
        Some(OpCode::GetGlobal)
    } else if byte == 18 {
        Some(OpCode::SetGlobal)
    } else {
        None
    }
}

/// How many code bytes an instruction occupies: the opcode byte plus its
/// operand byte, if it has one.
pub open spec fn spec_op_width(op: OpCode) -> nat {
    match op {
        OpCode::Constant => 2,
        OpCode::DefineGlobal => 2,
        OpCode::GetGlobal => 2,
        OpCode::SetGlobal => 2,
        _ => 1,
    }
}

impl OpCode {
    /// Encodes the opcode as its byte.
    pub fn to_byte(self) -> (r: u8)
        ensures
            r == spec_opcode_byte(self),
    {
        match self {
            OpCode::Return => 0,
            OpCode::Constant => 1,
            OpCode::Add => 2,
            OpCode::Subtract => 3,
            OpCode::Divide => 4,
            OpCode::Multiply => 5,
            OpCode::Negate => 6,
            OpCode::Not => 7,
            OpCode::Equal => 8,
            OpCode::Greater => 9,
            OpCode::Less => 10,
            OpCode::True => 11,
            OpCode::False => 12,
            OpCode::Nil => 13,
            OpCode::Print => 14,
            OpCode::Pop => 15,
            OpCode::DefineGlobal => 16,
            OpCode::GetGlobal => 17,
            OpCode::SetGlobal => 18,
        }
    }

    /// Decodes a byte back to its opcode; `None` for bytes outside the
    /// instruction set.
    pub fn decode(byte: u8) -> (r: Option<OpCode>)
        ensures
            r == spec_decode(byte),
    {
        if byte == 0 {
            Some(OpCode::Return)
        } else if byte == 1 {
            Some(OpCode::Constant)
        } else if byte == 2 {
            Some(OpCode::Add)
        } else if byte == 3 {
            Some(OpCode::Subtract)
        } else if byte == 4 {
            Some(OpCode::Divide)
        } else if byte == 5 {
            Some(OpCode::Multiply)
        } else if byte == 6 {
            Some(OpCode::Negate)
        } else if byte == 7 {
            Some(OpCode::Not)
        } else if byte == 8 {
            Some(OpCode::Equal)
        } else if byte == 9 {
            Some(OpCode::Greater)
        } else if byte == 10 {
            Some(OpCode::Less)
        } else if byte == 11 {
            Some(OpCode::True)
        } else if byte == 12 {
            Some(OpCode::False)
        } else if byte == 13 {
            Some(OpCode::Nil)
        } else if byte == 14 {
            Some(OpCode::Print)
        } else if byte == 15 {
            Some(OpCode::Pop)
        } else if byte == 16 {
            Some(OpCode::DefineGlobal)
        } else if byte == 17 {
            Some(OpCode::GetGlobal)
        } else if byte == 18 {
            Some(OpCode::SetGlobal)
        } else {
            None
        }
    }
}

/// Encoding and decoding invert each other.
pub proof fn lemma_opcode_round_trip(op: OpCode)
    ensures
        spec_decode(spec_opcode_byte(op)) == Some(op),
{
}

/// A run of equal line numbers, as a sequence.
pub open spec fn spec_line_run(line: u32, count: nat) -> Seq<u32> {
    Seq::new(count, |i: int| line)
}

/// The per-byte line numbers a run-length table stands for.
pub open spec fn spec_flatten_runs(runs: Seq<(u32, usize)>) -> Seq<u32>
    decreases runs.len(),
{
    if runs.len() == 0 {
        Seq::empty()
    } else {
        spec_line_run(runs[0].0, runs[0].1 as nat) + spec_flatten_runs(runs.drop_first())
    }
}

/// Flattening distributes over concatenation of run tables.
proof fn lemma_flatten_concat(a: Seq<(u32, usize)>, b: Seq<(u32, usize)>)
    ensures
        spec_flatten_runs(a + b) == spec_flatten_runs(a) + spec_flatten_runs(b),
    decreases a.len(),
{
    if a.len() == 0 {
        assert(a + b =~= b);
        assert(spec_flatten_runs(a) + spec_flatten_runs(b) =~= spec_flatten_runs(b));
    } else {
        assert((a + b).drop_first() =~= a.drop_first() + b);
        lemma_flatten_concat(a.drop_first(), b);
        assert(spec_flatten_runs(a + b) =~= spec_flatten_runs(a) + spec_flatten_runs(b));
    }
}

/// Flattening a single run yields just that run.
proof fn lemma_flatten_single(l: u32, c: usize)
    ensures
        spec_flatten_runs(seq![(l, c)]) == spec_line_run(l, c as nat),
{
    let s = seq![(l, c)];
    assert(s.drop_first() =~= Seq::<(u32, usize)>::empty());
    assert(spec_flatten_runs(Seq::<(u32, usize)>::empty()) =~= Seq::<u32>::empty());
    assert(spec_flatten_runs(s) == spec_line_run(l, c as nat) + spec_flatten_runs(s.drop_first()));
    assert(spec_flatten_runs(s) =~= spec_line_run(l, c as nat));
}

/// The run-length-encoded line-number table: pairs of (line, run length) in
/// emission order. Its view is the line number of each code byte in turn.
#[derive(Debug)]
pub struct Line {
    lines: Vec<(u32, usize)>,
}

impl View for Line {
    type V = Seq<u32>;

    closed spec fn view(&self) -> Seq<u32> {
        spec_flatten_runs(self.lines@)
    }
}

impl Line {
    /// An empty table.
    pub fn new() -> (r: Self)
        ensures
            r@ == Seq::<u32>::empty(),
    {
        Line { lines: Vec::new() }
    }

    /// Records the line of one more code byte: extends the last run when the
    /// line matches, else starts a new run.
    pub fn push(&mut self, line: u32)
        ensures
            final(self)@ == old(self)@.push(line),
    {
        let n = self.lines.len();
        if n > 0 {
            let (l, c) = self.lines[n - 1];
            if l == line && c < usize::MAX {
                self.lines.remove(n - 1);
                self.lines.push((l, c + 1));
                proof {
                    let pre = old(self).lines@.drop_last();
                    assert(old(self).lines@ =~= pre + seq![(l, c)]);
                    assert(self.lines@ =~= pre + seq![(l, (c + 1) as usize)]);
                    lemma_flatten_concat(pre, seq![(l, c)]);
                    lemma_flatten_concat(pre, seq![(l, (c + 1) as usize)]);
                    lemma_flatten_single(l, c);
                    lemma_flatten_single(l, (c + 1) as usize);
                    assert(spec_line_run(l, (c + 1) as nat) =~= spec_line_run(l, c as nat).push(
                        l,
                    ));
                    assert(self@ =~= old(self)@.push(line));
                }
                return ;
            }
        }
        self.lines.push((line, 1));
        proof {
            assert(self.lines@ =~= old(self).lines@ + seq![(line, 1usize)]);
            lemma_flatten_concat(old(self).lines@, seq![(line, 1usize)]);
            lemma_flatten_single(line, 1);
            assert(spec_line_run(line, 1) =~= seq![line]);
            assert(self@ =~= old(self)@.push(line));
        }
    }

    /// The line of the code byte at `loc`, or 0 when `loc` is out of range.
    pub fn get_line(&self, loc: usize) -> (r: u32)
        ensures
            r == if loc < self@.len() {
                self@[loc as int]
            } else {
                0
            },
    {
        let mut rem: usize = loc;
        let mut i: usize = 0;
        let n = self.lines.len();
        while i < n
            invariant
                i <= n,
                n == self.lines@.len(),
                rem <= loc,
                self@ == spec_flatten_runs(self.lines@),
                loc - rem == spec_flatten_runs(self.lines@.subrange(0, i as int)).len(),
                forall|j: int|
                    0 <= j < loc - rem ==> spec_flatten_runs(self.lines@.subrange(0, i as int))[j]
                        == self@[j],
            decreases n - i,
        {
            let (l, c) = self.lines[i];
            proof {
                assert(self.lines@.subrange(0, i + 1 as int) =~= self.lines@.subrange(0, i as int)
                    + seq![(l, c)]);
                lemma_flatten_concat(self.lines@.subrange(0, i as int), seq![(l, c)]);
                lemma_flatten_single(l, c);
                assert(self.lines@ =~= self.lines@.subrange(0, i + 1 as int) + self.lines@.subrange(
                    i + 1,
                    n as int,
                ));
                lemma_flatten_concat(
                    self.lines@.subrange(0, i + 1 as int),
                    self.lines@.subrange(i + 1, n as int),
                );
            }
            if rem < c {
                proof {
                    assert(self@[loc as int] == l);
                }
                return l;
            }
            rem = rem - c;
            i += 1;
        }
        proof {
            assert(self.lines@.subrange(0, n as int) =~= self.lines@);
            assert(loc - rem == self@.len());
            assert(loc >= self@.len());
        }
        0
    }
}

/// A compiled program unit: bytecode, per-byte line numbers, and the
/// constant pool. Write-only during compilation, read-only during execution.
#[derive(Debug)]
pub struct Chunk {
    pub code: Vec<u8>,
    pub lines: Line,
    pub constants: Vec<Type>,
}

impl Chunk {
    /// Lines and code stay in step, and the pool respects its 256-entry cap.
    pub open spec fn wf(&self) -> bool {
        &&& self.lines@.len() == self.code@.len()
        &&& self.constants@.len() <= 256
    }

    /// An empty chunk.
    pub fn new() -> (r: Self)
        ensures
            r.wf(),
            r.code@.len() == 0,
            r.constants@.len() == 0,
    {
        Chunk { code: Vec::new(), lines: Line::new(), constants: Vec::new() }
    }

    /// Appends one code byte, recording its source line.
    pub fn write(&mut self, byte: u8, line: u32)
        requires
            old(self).wf(),
        ensures
            final(self).wf(),
            final(self).code@ == old(self).code@.push(byte),
            final(self).lines@ == old(self).lines@.push(line),
            final(self).constants == old(self).constants,
    {
        self.code.push(byte);
        self.lines.push(line);
    }

    /// Appends a value to the constant pool and returns its one-byte index;
    /// `None` when the pool already holds 256 constants.
    pub fn constant(&mut self, value: Type) -> (r: Option<u8>)
        requires
            old(self).wf(),
        ensures
            final(self).wf(),
            final(self).code == old(self).code,
            final(self).lines == old(self).lines,
            match r {
                Some(idx) => old(self).constants@.len() < 256 && idx == old(self).constants@.len()
                    && final(self).constants@ == old(self).constants@.push(value),
                None => old(self).constants@.len() == 256 && final(self).constants == old(
                    self,
                ).constants,
            },
    {
        let n = self.constants.len();
        if n >= 256 {
            return None;
        }
        self.constants.push(value);
        Some(n as u8)
    }
}

/// Structural well-formedness of code starting at offset `i`: every
/// instruction decodes, is complete, and its operand (a constant-pool index)
/// is in range; operands of the global opcodes name string constants.
pub open spec fn spec_code_wf_from(code: Seq<u8>, consts: Seq<Type>, i: int) -> bool
    decreases code.len() - i,
{
    if i >= code.len() {
        true
    } else {
        match spec_decode(code[i]) {
            None => false,
            Some(op) => {
                &&& i + spec_op_width(op) <= code.len()
                &&& (spec_op_width(op) == 2 ==> code[i + 1] < consts.len())
                &&& ((op == OpCode::DefineGlobal || op == OpCode::GetGlobal || op
                    == OpCode::SetGlobal) ==> consts[code[i + 1] as int] matches Type::Object(_))
                &&& spec_code_wf_from(code, consts, i + spec_op_width(op))
            },
        }
    }
}

/// Structural well-formedness of a whole chunk's code.
pub open spec fn spec_code_wf(code: Seq<u8>, consts: Seq<Type>) -> bool {
    spec_code_wf_from(code, consts, 0)
}

/// Appending instructions that are well-formed where the old code ends keeps
/// the whole code well-formed.
pub proof fn lemma_code_wf_extend(code: Seq<u8>, consts: Seq<Type>, add: Seq<u8>, i: int)
    requires
        0 <= i <= code.len(),
        spec_code_wf_from(code, consts, i),
        spec_code_wf_from(code + add, consts, code.len() as int),
    ensures
        spec_code_wf_from(code + add, consts, i),
    decreases code.len() - i,
{
    if i < code.len() {
        let op = spec_decode(code[i]).unwrap();
        assert((code + add)[i] == code[i]);
        if spec_op_width(op) == 2 {
            assert((code + add)[i + 1] == code[i + 1]);
        }
        lemma_code_wf_extend(code, consts, add, i + spec_op_width(op) as int);
    }
}

/// A longer constant pool cannot break code well-formedness: indices stay in
/// range and existing entries keep their values.
pub proof fn lemma_code_wf_consts_extend(
    code: Seq<u8>,
    consts: Seq<Type>,
    more: Seq<Type>,
    i: int,
)
    requires
        0 <= i,
        spec_code_wf_from(code, consts, i),
        consts.is_prefix_of(more),
    ensures
        spec_code_wf_from(code, more, i),
    decreases code.len() - i,
{
    if i < code.len() {
        let op = spec_decode(code[i]).unwrap();
        if spec_op_width(op) == 2 {
            assert(more[code[i + 1] as int] == consts[code[i + 1] as int]);
        }
        lemma_code_wf_consts_extend(code, consts, more, i + spec_op_width(op) as int);
    }
}

} // verus!
