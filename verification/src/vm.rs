//! The virtual machine: a fetch-decode-execute interpreter over a compiled
//! chunk, a bounded operand stack, the global-variable table and the object
//! heap, plus the disassembler used for diagnostics.
//!
//! The whole execution is stated by the machine `spec_run`: one recursive
//! spec function from (code, constants, machine state) to the final state
//! and outcome. `Vm::run` returns exactly what it says. Where the machine
//! meets a condition no compiled chunk produces (a truncated instruction, an
//! unknown opcode, a constant index out of range, a pushed value past the
//! stack bound), it stops with a defensive runtime error rather than
//! undefined behaviour; integer overflow and division by zero are likewise
//! explicit runtime errors.

use vstd::prelude::*;
use vstd::string::StringSliceAdditionalSpecFns;
use crate::chunk::{Chunk, OpCode, spec_decode, spec_opcode_byte, spec_op_width};
use crate::compiler::{CompOut, compile, spec_accepts, spec_compile, spec_consts_wf};
use crate::err::{CompilerError, TryFromValueError, VmError, spec_join_error_renders,
    spec_try_from_message};
use crate::memory::{
    Memory, spec_intern, spec_seq_extends, spec_type_mismatch_message,
    spec_undefined_variable_message, spec_value_wf,
};
use crate::text::{dec_i32, dec_u64, extend_bytes, extend_str, spec_dec_int, spec_dec_nat};
use crate::value::{ObjectPointer, StringPointer, Type, spec_falsy, spec_types_equal};

verus! {

/// The fixed capacity of the operand stack.
pub const STACK_MAX: usize = 255;

/// The name of a value's kind, as conversion diagnostics spell it.
pub open spec fn spec_kind_name(v: Type) -> Seq<u8> {
    match v {
        Type::Number(_) => "number".spec_bytes(),
        Type::Bool(_) => "bool".spec_bytes(),
        Type::Nil => "nil".spec_bytes(),
        Type::Object(_) => "object".spec_bytes(),
    }
}

/// The display form of a value: decimal numbers, `true`/`false`, `nil`, and
/// a string's stored content.
pub open spec fn spec_render(v: Type, heap: Seq<Seq<u8>>) -> Seq<u8> {
    match v {
        Type::Number(n) => spec_dec_int(n as int),
        Type::Bool(b) => if b {
            "true".spec_bytes()
        } else {
            "false".spec_bytes()
        },
        Type::Nil => "nil".spec_bytes(),
        Type::Object(ObjectPointer::String(p)) => if p.0 < heap.len() {
            heap[p.0 as int]
        } else {
            Seq::empty()
        },
    }
}

/// Renders a value for printing.
pub fn render_value(v: &Type, mem: &Memory) -> (r: Vec<u8>)
    requires
        spec_value_wf(*v, mem.heap_view().len()),
    ensures
        r@ == spec_render(*v, mem.heap_view()),
{
    match v {
        Type::Number(n) => dec_i32(*n),
        Type::Bool(b) => {
            let mut out: Vec<u8> = Vec::new();
            if *b {
                extend_str(&mut out, "true");
            } else {
                extend_str(&mut out, "false");
            }
            out
        },
        Type::Nil => {
            let mut out: Vec<u8> = Vec::new();
            extend_str(&mut out, "nil");
            out
        },
        Type::Object(ObjectPointer::String(p)) => {
            let mut out: Vec<u8> = Vec::new();
            extend_bytes(&mut out, mem.string_content(*p).as_slice());
            out
        },
    }
}

/// The machine state the interpreter steps: the execution cursor, the
/// operand stack, the globals, the heap, and the lines printed so far.
#[verifier::ext_equal]
pub ghost struct VmState {
    pub pos: int,
    pub stack: Seq<Type>,
    pub globals: Map<int, Type>,
    pub heap: Seq<Seq<u8>>,
    pub output: Seq<Seq<u8>>,
}

/// How a run ends: the return instruction, or a runtime error with its
/// diagnostic text.
pub ghost enum RunOut {
    Done,
    Fail { msg: Seq<u8> },
}

/// The top of the stack without popping (`nil` on an empty stack, as the
/// machine's defensive reading).
pub open spec fn spec_peek(stack: Seq<Type>, distance: int) -> Type {
    if stack.len() > distance {
        stack[stack.len() - 1 - distance]
    } else {
        Type::Nil
    }
}

/// Popping: an empty stack yields `nil` and stays empty.
pub open spec fn spec_pop(stack: Seq<Type>) -> (Type, Seq<Type>) {
    if stack.len() > 0 {
        (stack.last(), stack.drop_last())
    } else {
        (Type::Nil, stack)
    }
}

/// Truncating (toward zero) division of two machine numbers, written as the
/// quotient of the magnitudes with the sign put back.
pub open spec fn spec_div_trunc(x: int, d: int) -> int {
    if x == 0 {
        0
    } else if x > 0 && d > 0 {
        x / d
    } else if x < 0 && d < 0 {
        ((x * -1) / (d * -1))
    } else if x < 0 {
        ((x * -1) / d) * -1
    } else {
        (x / (d * -1)) * -1
    }
}

/// What a numeric binary instruction yields on two numbers: a comparison
/// boolean or an arithmetic result, with overflow and division by zero as
/// errors.
pub open spec fn spec_binary_result(op: OpCode, a: i32, b: i32) -> Result<Type, Seq<u8>> {
    match op {
        OpCode::Less => Ok(Type::Bool((a as int) < (b as int))),
        OpCode::Greater => Ok(Type::Bool((a as int) > (b as int))),
        OpCode::Subtract => if a - b > i32::MAX || a - b < i32::MIN {
            Err("Arithmetic overflow.".spec_bytes())
        } else {
            Ok(Type::Number((a - b) as i32))
        },
        OpCode::Multiply => if a * b > i32::MAX || a * b < i32::MIN {
            Err("Arithmetic overflow.".spec_bytes())
        } else {
            Ok(Type::Number((a * b) as i32))
        },
        OpCode::Divide => if b == 0 {
            Err("Division by zero.".spec_bytes())
        } else if spec_div_trunc(a as int, b as int) > i32::MAX || spec_div_trunc(
            a as int,
            b as int,
        ) < i32::MIN {
            Err("Arithmetic overflow.".spec_bytes())
        } else {
            Ok(Type::Number(spec_div_trunc(a as int, b as int) as i32))
        },
        _ => Err(Seq::empty()),
    }
}

/// Reading a one-byte constant operand at `pos`: the constant and the
/// cursor after it, or the position and text of the error met.
pub open spec fn spec_read_const(code: Seq<u8>, consts: Seq<Type>, pos: int) -> Result<
    (Type, int),
    (int, Seq<u8>),
> {
    if pos >= code.len() {
        Err((pos, "Unexpected end of bytecode.".spec_bytes()))
    } else {
        let idx = code[pos];
        if idx >= consts.len() {
            Err((pos + 1, "Constant index out of range.".spec_bytes()))
        } else {
            Ok((consts[idx as int], pos + 1))
        }
    }
}

/// A constant read that must name a string (the operand of the global
/// opcodes).
pub open spec fn spec_as_string(v: Type) -> Result<StringPointer, Seq<u8>> {
    match v {
        Type::Object(ObjectPointer::String(p)) => Ok(p),
        _ => Err("Unrecoverable compiler error.".spec_bytes()),
    }
}

/// The fetch-decode-execute machine: from a state, the final state and the
/// outcome of running the given code to its return instruction or to the
/// first error. This is the semantics `Vm::run` implements.
pub open spec fn spec_run(code: Seq<u8>, consts: Seq<Type>, st: VmState) -> (VmState, RunOut)
    decreases code.len() - st.pos,
{
    if st.pos < 0 || st.pos >= code.len() {
        (st, RunOut::Fail { msg: "Unexpected end of bytecode.".spec_bytes() })
    } else {
        let pos1 = st.pos + 1;
        match spec_decode(code[st.pos]) {
            None => (
                VmState { pos: pos1, ..st },
                RunOut::Fail { msg: "unknown opcode.".spec_bytes() },
            ),
            Some(op) => match op {
                OpCode::Return => (VmState { pos: pos1, ..st }, RunOut::Done),
                OpCode::Constant => match spec_read_const(code, consts, pos1) {
                    Err((p, m)) => (VmState { pos: p, ..st }, RunOut::Fail { msg: m }),
                    Ok((v, pos2)) => if st.stack.len() >= STACK_MAX {
                        (
                            VmState { pos: pos2, ..st },
                            RunOut::Fail { msg: "Stack overflow.".spec_bytes() },
                        )
                    } else {
                        spec_run(
                            code,
                            consts,
                            VmState { pos: pos2, stack: st.stack.push(v), ..st },
                        )
                    },
                },
                OpCode::True => if st.stack.len() >= STACK_MAX {
                    (
                        VmState { pos: pos1, ..st },
                        RunOut::Fail { msg: "Stack overflow.".spec_bytes() },
                    )
                } else {
                    spec_run(
                        code,
                        consts,
                        VmState { pos: pos1, stack: st.stack.push(Type::Bool(true)), ..st },
                    )
                },
                OpCode::False => if st.stack.len() >= STACK_MAX {
                    (
                        VmState { pos: pos1, ..st },
                        RunOut::Fail { msg: "Stack overflow.".spec_bytes() },
                    )
                } else {
                    spec_run(
                        code,
                        consts,
                        VmState { pos: pos1, stack: st.stack.push(Type::Bool(false)), ..st },
                    )
                },
                OpCode::Nil => if st.stack.len() >= STACK_MAX {
                    (
                        VmState { pos: pos1, ..st },
                        RunOut::Fail { msg: "Stack overflow.".spec_bytes() },
                    )
                } else {
                    spec_run(
                        code,
                        consts,
                        VmState { pos: pos1, stack: st.stack.push(Type::Nil), ..st },
                    )
                },
                OpCode::Not => {
                    let (v, stack1) = spec_pop(st.stack);
                    spec_run(
                        code,
                        consts,
                        VmState {
                            pos: pos1,
                            stack: stack1.push(Type::Bool(spec_falsy(v))),
                            ..st
                        },
                    )
                },
                OpCode::Equal => {
                    let (b, stack1) = spec_pop(st.stack);
                    let (a, stack2) = spec_pop(stack1);
                    spec_run(
                        code,
                        consts,
                        VmState { pos: pos1, stack: stack2.push(Type::Bool(a == b)), ..st },
                    )
                },
                OpCode::Negate => {
                    let (v, stack1) = spec_pop(st.stack);
                    match v {
                        Type::Number(n) => if n == i32::MIN {
                            (
                                VmState { pos: pos1, stack: stack1, ..st },
                                RunOut::Fail { msg: "Arithmetic overflow.".spec_bytes() },
                            )
                        } else {
                            spec_run(
                                code,
                                consts,
                                VmState {
                                    pos: pos1,
                                    stack: stack1.push(Type::Number((-n) as i32)),
                                    ..st
                                },
                            )
                        },
                        _ => (
                            VmState { pos: pos1, stack: stack1, ..st },
                            RunOut::Fail {
                                msg: spec_try_from_message(
                                    "number".spec_bytes(),
                                    spec_kind_name(v),
                                ),
                            },
                        ),
                    }
                },
                OpCode::Subtract | OpCode::Divide | OpCode::Multiply | OpCode::Greater
                    | OpCode::Less => {
                    let (bv, stack1) = spec_pop(st.stack);
                    let (av, stack2) = spec_pop(stack1);
                    match (av, bv) {
                        (Type::Number(a), Type::Number(b)) => match spec_binary_result(op, a, b) {
                            Ok(v) => spec_run(
                                code,
                                consts,
                                VmState { pos: pos1, stack: stack2.push(v), ..st },
                            ),
                            Err(m) => (
                                VmState { pos: pos1, stack: stack2, ..st },
                                RunOut::Fail { msg: m },
                            ),
                        },
                        _ => (
                            VmState { pos: pos1, stack: stack2, ..st },
                            RunOut::Fail { msg: "Operands must be two numbers".spec_bytes() },
                        ),
                    }
                },
                OpCode::Add => {
                    let bv = spec_peek(st.stack, 0);
                    let av = spec_peek(st.stack, 1);
                    match (av, bv) {
                        (
                            Type::Object(ObjectPointer::String(pa)),
                            Type::Object(ObjectPointer::String(pb)),
                        ) => {
                            let content = (if pa.0 < st.heap.len() {
                                st.heap[pa.0 as int]
                            } else {
                                Seq::empty()
                            }) + (if pb.0 < st.heap.len() {
                                st.heap[pb.0 as int]
                            } else {
                                Seq::empty()
                            });
                            let (heap2, idx) = spec_intern(st.heap, content);
                            let stack2 = st.stack.drop_last().drop_last().push(
                                Type::Object(ObjectPointer::String(StringPointer(idx as usize))),
                            );
                            spec_run(
                                code,
                                consts,
                                VmState { pos: pos1, stack: stack2, heap: heap2, ..st },
                            )
                        },
                        (Type::Number(a), Type::Number(b)) => {
                            let stack2 = st.stack.drop_last().drop_last();
                            if a + b > i32::MAX || a + b < i32::MIN {
                                (
                                    VmState { pos: pos1, stack: stack2, ..st },
                                    RunOut::Fail { msg: "Arithmetic overflow.".spec_bytes() },
                                )
                            } else {
                                spec_run(
                                    code,
                                    consts,
                                    VmState {
                                        pos: pos1,
                                        stack: stack2.push(Type::Number((a + b) as i32)),
                                        ..st
                                    },
                                )
                            }
                        },
                        _ => (
                            VmState { pos: pos1, ..st },
                            RunOut::Fail {
                                msg: "Operands must be two numbers or two strings".spec_bytes(),
                            },
                        ),
                    }
                },
                OpCode::Print => {
                    let (v, stack1) = spec_pop(st.stack);
                    spec_run(
                        code,
                        consts,
                        VmState {
                            pos: pos1,
                            stack: stack1,
                            output: st.output.push(spec_render(v, st.heap)),
                            ..st
                        },
                    )
                },
                OpCode::Pop => {
                    let (v, stack1) = spec_pop(st.stack);
                    spec_run(code, consts, VmState { pos: pos1, stack: stack1, ..st })
                },
                OpCode::DefineGlobal => match spec_read_const(code, consts, pos1) {
                    Err((p, m)) => (VmState { pos: p, ..st }, RunOut::Fail { msg: m }),
                    Ok((c, pos2)) => match spec_as_string(c) {
                        Err(m) => (VmState { pos: pos2, ..st }, RunOut::Fail { msg: m }),
                        Ok(name) => {
                            let v = spec_peek(st.stack, 0);
                            let (_, stack1) = spec_pop(st.stack);
                            spec_run(
                                code,
                                consts,
                                VmState {
                                    pos: pos2,
                                    stack: stack1,
                                    globals: st.globals.insert(name.0 as int, v),
                                    ..st
                                },
                            )
                        },
                    },
                },
                OpCode::GetGlobal => match spec_read_const(code, consts, pos1) {
                    Err((p, m)) => (VmState { pos: p, ..st }, RunOut::Fail { msg: m }),
                    Ok((c, pos2)) => match spec_as_string(c) {
                        Err(m) => (VmState { pos: pos2, ..st }, RunOut::Fail { msg: m }),
                        Ok(name) => if !st.globals.contains_key(name.0 as int) {
                            (
                                VmState { pos: pos2, ..st },
                                RunOut::Fail {
                                    msg: spec_undefined_variable_message(
                                        if name.0 < st.heap.len() {
                                            st.heap[name.0 as int]
                                        } else {
                                            Seq::empty()
                                        },
                                    ),
                                },
                            )
                        } else if st.stack.len() >= STACK_MAX {
                            (
                                VmState { pos: pos2, ..st },
                                RunOut::Fail { msg: "Stack overflow.".spec_bytes() },
                            )
                        } else {
                            spec_run(
                                code,
                                consts,
                                VmState {
                                    pos: pos2,
                                    stack: st.stack.push(st.globals[name.0 as int]),
                                    ..st
                                },
                            )
                        },
                    },
                },
                OpCode::SetGlobal => match spec_read_const(code, consts, pos1) {
                    Err((p, m)) => (VmState { pos: p, ..st }, RunOut::Fail { msg: m }),
                    Ok((c, pos2)) => match spec_as_string(c) {
                        Err(m) => (VmState { pos: pos2, ..st }, RunOut::Fail { msg: m }),
                        Ok(name) => {
                            let v = spec_peek(st.stack, 0);
                            if !st.globals.contains_key(name.0 as int) {
                                (
                                    VmState { pos: pos2, ..st },
                                    RunOut::Fail {
                                        msg: spec_undefined_variable_message(
                                            if name.0 < st.heap.len() {
                                                st.heap[name.0 as int]
                                            } else {
                                                Seq::empty()
                                            },
                                        ),
                                    },
                                )
                            } else if !spec_types_equal(st.globals[name.0 as int], v) {
                                (
                                    VmState { pos: pos2, ..st },
                                    RunOut::Fail { msg: spec_type_mismatch_message() },
                                )
                            } else {
                                spec_run(
                                    code,
                                    consts,
                                    VmState {
                                        pos: pos2,
                                        globals: st.globals.insert(name.0 as int, v),
                                        ..st
                                    },
                                )
                            }
                        },
                    },
                },
            },
        }
    }
}

/// A run never shrinks the heap or the output: the arena is append-only
/// and printed lines stay printed, whatever the program does.
pub proof fn lemma_run_extends(code: Seq<u8>, consts: Seq<Type>, st: VmState)
    ensures
        spec_seq_extends(spec_run(code, consts, st).0.heap, st.heap),
        spec_seq_extends(spec_run(code, consts, st).0.output, st.output),
    decreases code.len() - st.pos,
{
    if 0 <= st.pos < code.len() {
        let pos1 = st.pos + 1;
        match spec_decode(code[st.pos]) {
            None => {},
            Some(op) => match op {
                OpCode::Return => {},
                OpCode::Constant => match spec_read_const(code, consts, pos1) {
                    Err(_) => {},
                    Ok((v, pos2)) => if st.stack.len() < STACK_MAX {
                        lemma_run_extends(
                            code,
                            consts,
                            VmState { pos: pos2, stack: st.stack.push(v), ..st },
                        );
                    },
                },
                OpCode::True => if st.stack.len() < STACK_MAX {
                    lemma_run_extends(
                        code,
                        consts,
                        VmState { pos: pos1, stack: st.stack.push(Type::Bool(true)), ..st },
                    );
                },
                OpCode::False => if st.stack.len() < STACK_MAX {
                    lemma_run_extends(
                        code,
                        consts,
                        VmState { pos: pos1, stack: st.stack.push(Type::Bool(false)), ..st },
                    );
                },
                OpCode::Nil => if st.stack.len() < STACK_MAX {
                    lemma_run_extends(
                        code,
                        consts,
                        VmState { pos: pos1, stack: st.stack.push(Type::Nil), ..st },
                    );
                },
                OpCode::Not => {
                    let (v, stack1) = spec_pop(st.stack);
                    lemma_run_extends(
                        code,
                        consts,
                        VmState { pos: pos1, stack: stack1.push(Type::Bool(spec_falsy(v))), ..st },
                    );
                },
                OpCode::Equal => {
                    let (b, stack1) = spec_pop(st.stack);
                    let (a, stack2) = spec_pop(stack1);
                    lemma_run_extends(
                        code,
                        consts,
                        VmState { pos: pos1, stack: stack2.push(Type::Bool(a == b)), ..st },
                    );
                },
                OpCode::Negate => {
                    let (v, stack1) = spec_pop(st.stack);
                    match v {
                        Type::Number(n) => if n != i32::MIN {
                            lemma_run_extends(
                                code,
                                consts,
                                VmState {
                                    pos: pos1,
                                    stack: stack1.push(Type::Number((-n) as i32)),
                                    ..st
                                },
                            );
                        },
                        _ => {},
                    }
                },
                OpCode::Subtract | OpCode::Divide | OpCode::Multiply | OpCode::Greater
                    | OpCode::Less => {
                    let (bv, stack1) = spec_pop(st.stack);
                    let (av, stack2) = spec_pop(stack1);
                    match (av, bv) {
                        (Type::Number(a), Type::Number(b)) => match spec_binary_result(op, a, b) {
                            Ok(v) => {
                                lemma_run_extends(
                                    code,
                                    consts,
                                    VmState { pos: pos1, stack: stack2.push(v), ..st },
                                );
                            },
                            Err(_) => {},
                        },
                        _ => {},
                    }
                },
                OpCode::Add => {
                    let bv = spec_peek(st.stack, 0);
                    let av = spec_peek(st.stack, 1);
                    match (av, bv) {
                        (
                            Type::Object(ObjectPointer::String(pa)),
                            Type::Object(ObjectPointer::String(pb)),
                        ) => {
                            let content = (if pa.0 < st.heap.len() {
                                st.heap[pa.0 as int]
                            } else {
                                Seq::empty()
                            }) + (if pb.0 < st.heap.len() {
                                st.heap[pb.0 as int]
                            } else {
                                Seq::empty()
                            });
                            let (heap2, idx) = spec_intern(st.heap, content);
                            let stack2 = st.stack.drop_last().drop_last().push(
                                Type::Object(ObjectPointer::String(StringPointer(idx as usize))),
                            );
                            lemma_run_extends(
                                code,
                                consts,
                                VmState { pos: pos1, stack: stack2, heap: heap2, ..st },
                            );
                        },
                        (Type::Number(a), Type::Number(b)) => {
                            let stack2 = st.stack.drop_last().drop_last();
                            if !(a + b > i32::MAX || a + b < i32::MIN) {
                                lemma_run_extends(
                                    code,
                                    consts,
                                    VmState {
                                        pos: pos1,
                                        stack: stack2.push(Type::Number((a + b) as i32)),
                                        ..st
                                    },
                                );
                            }
                        },
                        _ => {},
                    }
                },
                OpCode::Print => {
                    let (v, stack1) = spec_pop(st.stack);
                    lemma_run_extends(
                        code,
                        consts,
                        VmState {
                            pos: pos1,
                            stack: stack1,
                            output: st.output.push(spec_render(v, st.heap)),
                            ..st
                        },
                    );
                },
                OpCode::Pop => {
                    let (v, stack1) = spec_pop(st.stack);
                    lemma_run_extends(code, consts, VmState { pos: pos1, stack: stack1, ..st });
                },
                OpCode::DefineGlobal => match spec_read_const(code, consts, pos1) {
                    Err(_) => {},
                    Ok((c, pos2)) => match spec_as_string(c) {
                        Err(_) => {},
                        Ok(name) => {
                            let v = spec_peek(st.stack, 0);
                            let (_, stack1) = spec_pop(st.stack);
                            lemma_run_extends(
                                code,
                                consts,
                                VmState {
                                    pos: pos2,
                                    stack: stack1,
                                    globals: st.globals.insert(name.0 as int, v),
                                    ..st
                                },
                            );
                        },
                    },
                },
                OpCode::GetGlobal => match spec_read_const(code, consts, pos1) {
                    Err(_) => {},
                    Ok((c, pos2)) => match spec_as_string(c) {
                        Err(_) => {},
                        Ok(name) => if st.globals.contains_key(name.0 as int) && st.stack.len()
                            < STACK_MAX {
                            lemma_run_extends(
                                code,
                                consts,
                                VmState {
                                    pos: pos2,
                                    stack: st.stack.push(st.globals[name.0 as int]),
                                    ..st
                                },
                            );
                        },
                    },
                },
                OpCode::SetGlobal => match spec_read_const(code, consts, pos1) {
                    Err(_) => {},
                    Ok((c, pos2)) => match spec_as_string(c) {
                        Err(_) => {},
                        Ok(name) => {
                            let v = spec_peek(st.stack, 0);
                            if st.globals.contains_key(name.0 as int) && spec_types_equal(
                                st.globals[name.0 as int],
                                v,
                            ) {
                                lemma_run_extends(
                                    code,
                                    consts,
                                    VmState {
                                        pos: pos2,
                                        globals: st.globals.insert(name.0 as int, v),
                                        ..st
                                    },
                                );
                            }
                        },
                    },
                },
            },
        }
    }
}

/// A runtime error with a fixed text.
fn runtime_error<T>(message: &str) -> (r: Result<T, VmError>)
    ensures
        r matches Err(e) && e.message@ == message.spec_bytes() && e.code == 70,
{
    let mut m: Vec<u8> = Vec::new();
    extend_str(&mut m, message);
    VmError::new(m)
}

/// The undefined-variable runtime error for a given interned name.
fn undefined_variable_error<T>(mem: &Memory, name: StringPointer) -> (r: Result<T, VmError>)
    requires
        name.0 < mem.heap_view().len(),
    ensures
        r matches Err(e) && e.message@ == spec_undefined_variable_message(
            mem.heap_view()[name.0 as int],
        ) && e.code == 70,
{
    let mut m: Vec<u8> = Vec::new();
    extend_str(&mut m, "Undefined variable '");
    extend_bytes(&mut m, mem.string_content(name).as_slice());
    extend_str(&mut m, "'");
    VmError::new(m)
}

/// The execution cursor: the index of the next code byte to fetch.
#[derive(Clone, Copy, Debug)]
pub struct Ip {
    pub pos: usize,
}

impl Ip {
    /// A cursor at the start of a chunk.
    pub fn null() -> (r: Self)
        ensures
            r.pos == 0,
    {
        Ip { pos: 0 }
    }

    /// Fetches the next code byte, if any, and advances.
    pub fn next(&mut self, chunk: &Chunk) -> (r: Option<u8>)
        ensures
            if old(self).pos < chunk.code@.len() {
                r == Some(chunk.code@[old(self).pos as int]) && final(self).pos == old(self).pos
                    + 1
            } else {
                r is None && final(self).pos == old(self).pos
            },
    {
        if self.pos < chunk.code.len() {
            let b = chunk.code[self.pos];
            self.pos = self.pos + 1;
            Some(b)
        } else {
            None
        }
    }

    /// Reads the constant at a pool index.
    pub fn constant(&self, chunk: &Chunk, loc: u8) -> (r: Type)
        requires
            (loc as int) < chunk.constants@.len(),
        ensures
            r == chunk.constants@[loc as int],
    {
        chunk.constants[loc as usize]
    }

    /// The source line of the code byte at `loc`.
    pub fn line(&self, chunk: &Chunk, loc: usize) -> (r: u32)
        ensures
            r == if loc < chunk.lines@.len() {
                chunk.lines@[loc as int]
            } else {
                0u32
            },
    {
        chunk.lines.get_line(loc)
    }
}

/// The virtual machine: execution cursor, bounded operand stack, memory
/// (heap and globals), the chunk being run, and the lines printed so far.
/// One instance persists across `interpret` calls, so globals and heap
/// survive from one source to the next while the cursor is re-aimed.
pub struct Vm {
    ip: Ip,
    stack: Vec<Type>,
    pub memory: Memory,
    chunk: Option<Chunk>,
    output: Vec<Vec<u8>>,
}

impl Vm {
    /// The operand stack, bottom first.
    pub closed spec fn spec_stack(&self) -> Seq<Type> {
        self.stack@
    }

    /// The installed chunk, if any.
    pub closed spec fn spec_chunk(&self) -> Option<Chunk> {
        self.chunk
    }

    /// The execution cursor.
    pub closed spec fn spec_pos(&self) -> int {
        self.ip.pos as int
    }

    /// The printed lines so far.
    pub closed spec fn spec_output(&self) -> Seq<Seq<u8>> {
        Seq::new(self.output@.len(), |i: int| self.output@[i]@)
    }

    /// The memory (heap and globals).
    pub closed spec fn spec_memory(&self) -> Memory {
        self.memory
    }

    /// The machine state this instance is in.
    pub closed spec fn state_view(&self) -> VmState {
        VmState {
            pos: self.spec_pos(),
            stack: self.spec_stack(),
            globals: self.memory.globals_view(),
            heap: self.memory.heap_view(),
            output: self.spec_output(),
        }
    }

    /// The machine's invariant: memory is consistent, the stack respects
    /// its bound and holds no dangling handles, and the installed chunk is
    /// well-formed with in-heap constants and an in-range cursor.
    pub closed spec fn wf(&self) -> bool {
        &&& self.memory.wf()
        &&& self.spec_stack().len() <= STACK_MAX
        &&& forall|i: int|
            0 <= i < self.spec_stack().len() ==> spec_value_wf(
                #[trigger] self.spec_stack()[i],
                self.memory.heap_view().len(),
            )
        &&& match self.spec_chunk() {
            Some(c) => {
                &&& c.wf()
                &&& spec_consts_wf(c.constants@, self.memory.heap_view().len())
                &&& self.spec_pos() <= c.code@.len()
            },
            None => true,
        }
    }

    /// A fresh machine: empty stack, empty memory, no chunk, no output.
    pub fn new() -> (r: Self)
        ensures
            r.wf(),
            r.spec_stack().len() == 0,
            r.spec_chunk() is None,
            r.spec_pos() == 0,
            r.spec_memory().heap_view().len() == 0,
            r.spec_memory().globals_view() == Map::<int, Type>::empty(),
            r.spec_output().len() == 0,
    {
        let r = Vm {
            ip: Ip::null(),
            stack: Vec::new(),
            memory: Memory::new(),
            chunk: None,
            output: Vec::new(),
        };
        proof {
            assert(r.spec_output() =~= Seq::<Seq<u8>>::empty());
        }
        r
    }

    /// Clears the memory back to its initial state.
    pub fn init(&mut self)
        requires
            old(self).wf(),
        ensures
            final(self).wf(),
            final(self).spec_memory().heap_view().len() == 0,
            final(self).spec_memory().globals_view() == Map::<int, Type>::empty(),
            final(self).spec_stack().len() == 0,
            final(self).spec_chunk() is None,
    {
        self.memory.initialize_memory();
        self.stack = Vec::new();
        self.chunk = None;
        self.ip = Ip::null();
    }

    /// Empties the operand stack (the caller's reset after a runtime
    /// error).
    pub fn reset_stack(&mut self)
        requires
            old(self).wf(),
        ensures
            final(self).wf(),
            final(self).spec_stack().len() == 0,
            final(self).spec_pos() == old(self).spec_pos(),
            final(self).spec_memory() == old(self).spec_memory(),
            final(self).spec_chunk() == old(self).spec_chunk(),
            final(self).spec_output() == old(self).spec_output(),
    {
        self.stack = Vec::new();
        proof {
            assert(self.spec_output() =~= old(self).spec_output());
        }
    }

    /// Hands the printed lines out and clears the buffer.
    pub fn take_output(&mut self) -> (r: Vec<Vec<u8>>)
        requires
            old(self).wf(),
        ensures
            final(self).wf(),
            r.deep_view() == old(self).spec_output(),
            final(self).spec_output().len() == 0,
            final(self).spec_memory() == old(self).spec_memory(),
            final(self).spec_stack() == old(self).spec_stack(),
            final(self).spec_chunk() == old(self).spec_chunk(),
    {
        let mut out: Vec<Vec<u8>> = Vec::new();
        core::mem::swap(&mut out, &mut self.output);
        proof {
            assert(out.deep_view() =~~= old(self).spec_output());
            assert(self.spec_output() =~= Seq::<Seq<u8>>::empty());
        }
        out
    }

    /// Pushes a value; the caller has already ruled the bound out.
    fn push(&mut self, val: Type)
        requires
            old(self).stack@.len() < STACK_MAX,
        ensures
            final(self).stack@ == old(self).stack@.push(val),
            final(self).memory == old(self).memory,
            final(self).chunk == old(self).chunk,
            final(self).ip == old(self).ip,
            final(self).output == old(self).output,
    {
        self.stack.push(val);
    }

    /// Pops the top value; an empty stack defensively yields `nil`.
    fn pop(&mut self) -> (r: Type)
        ensures
            (r, final(self).stack@) == spec_pop(old(self).stack@),
            final(self).memory == old(self).memory,
            final(self).chunk == old(self).chunk,
            final(self).ip == old(self).ip,
            final(self).output == old(self).output,
    {
        match self.stack.pop() {
            Some(v) => v,
            None => Type::Nil,
        }
    }

    /// Reads a value `distance` slots below the top without popping.
    fn peek(&self, distance: usize) -> (r: Type)
        ensures
            r == spec_peek(self.stack@, distance as int),
    {
        if self.stack.len() > distance {
            self.stack[self.stack.len() - 1 - distance]
        } else {
            Type::Nil
        }
    }

    /// Fetches the next code byte.
    fn read_byte(&mut self) -> (r: Option<u8>)
        requires
            old(self).chunk is Some,
        ensures
            final(self).stack == old(self).stack,
            final(self).memory == old(self).memory,
            final(self).chunk == old(self).chunk,
            final(self).output == old(self).output,
            ({
                let code = old(self).chunk.unwrap().code@;
                if old(self).ip.pos < code.len() {
                    r == Some(code[old(self).ip.pos as int]) && final(self).ip.pos == old(self).ip.pos + 1
                } else {
                    r is None && final(self).ip.pos == old(self).ip.pos
                }
            }),
    {
        let c = match &self.chunk {
            Some(c) => c,
            None => {
                proof {
                    assert(false);
                }
                return None;
            },
        };
        self.ip.next(c)
    }

    /// Reads a one-byte constant operand, exactly as `spec_read_const`
    /// decides it.
    fn read_constant(&mut self) -> (r: Result<Type, VmError>)
        requires
            old(self).chunk is Some,
        ensures
            final(self).stack == old(self).stack,
            final(self).memory == old(self).memory,
            final(self).chunk == old(self).chunk,
            final(self).output == old(self).output,
            ({
                let c = old(self).chunk.unwrap();
                match spec_read_const(c.code@, c.constants@, old(self).ip.pos as int) {
                    Ok((v, p2)) => r == Ok::<Type, VmError>(v) && final(self).ip.pos == p2,
                    Err((p, m)) => r matches Err(e) && e.message@ == m && e.code == 70 && final(self).ip.pos == p,
                }
            }),
    {
        let b = match self.read_byte() {
            Some(b) => b,
            None => {
                return runtime_error("Unexpected end of bytecode.");
            },
        };
        let c = match &self.chunk {
            Some(c) => c,
            None => {
                proof {
                    assert(false);
                }
                return runtime_error("Unexpected end of bytecode.");
            },
        };
        if (b as usize) < c.constants.len() {
            Ok(c.constants[b as usize])
        } else {
            runtime_error("Constant index out of range.")
        }
    }

    /// Reads a constant operand that must be an interned string (the name
    /// operand of the global opcodes).
    fn read_string(&mut self) -> (r: Result<StringPointer, VmError>)
        requires
            old(self).chunk is Some,
        ensures
            final(self).stack == old(self).stack,
            final(self).memory == old(self).memory,
            final(self).chunk == old(self).chunk,
            final(self).output == old(self).output,
            ({
                let c = old(self).chunk.unwrap();
                match spec_read_const(c.code@, c.constants@, old(self).ip.pos as int) {
                    Ok((v, p2)) => final(self).ip.pos == p2 && match spec_as_string(v) {
                        Ok(ptr) => r == Ok::<StringPointer, VmError>(ptr),
                        Err(m) => r matches Err(e) && e.message@ == m && e.code == 70,
                    },
                    Err((p, m)) => r matches Err(e) && e.message@ == m && e.code == 70 && final(self).ip.pos == p,
                }
            }),
    {
        let v = self.read_constant()?;
        match v {
            Type::Object(ObjectPointer::String(p)) => Ok(p),
            _ => runtime_error("Unrecoverable compiler error."),
        }
    }

    /// One numeric binary instruction (`- / * > <`): pops the two operands,
    /// demands numbers, and pushes the result; overflow and division by
    /// zero are runtime errors.
    fn binary_operation(&mut self, code: OpCode) -> (r: Result<(), VmError>)
        requires
            old(self).stack@.len() <= STACK_MAX,
            code == OpCode::Subtract || code == OpCode::Divide || code == OpCode::Multiply
                || code == OpCode::Greater || code == OpCode::Less,
        ensures
            final(self).memory == old(self).memory,
            final(self).chunk == old(self).chunk,
            final(self).ip == old(self).ip,
            final(self).output == old(self).output,
            ({
                let (bv, s1) = spec_pop(old(self).stack@);
                let (av, s2) = spec_pop(s1);
                match (av, bv) {
                    (Type::Number(a), Type::Number(b)) => match spec_binary_result(code, a, b) {
                        Ok(v) => r is Ok && final(self).stack@ == s2.push(v),
                        Err(m) => r matches Err(e) && e.message@ == m && e.code == 70 && final(self).stack@ == s2,
                    },
                    _ => r matches Err(e) && e.message@
                        == "Operands must be two numbers".spec_bytes() && e.code == 70 && final(self).stack@ == s2,
                }
            }),
    {
        let b_val = self.pop();
        let a_val = self.pop();
        match (a_val, b_val) {
            (Type::Number(a), Type::Number(b)) => {
                let v: Type = match code {
                    OpCode::Less => Type::Bool(a < b),
                    OpCode::Greater => Type::Bool(a > b),
                    OpCode::Subtract => {
                        match a.checked_sub(b) {
                            Some(v) => Type::Number(v),
                            None => {
                                return runtime_error("Arithmetic overflow.");
                            },
                        }
                    },
                    OpCode::Multiply => {
                        match a.checked_mul(b) {
                            Some(v) => Type::Number(v),
                            None => {
                                return runtime_error("Arithmetic overflow.");
                            },
                        }
                    },
                    OpCode::Divide => {
                        if b == 0 {
                            return runtime_error("Division by zero.");
                        }
                        match a.checked_div(b) {
                            Some(v) => Type::Number(v),
                            None => {
                                return runtime_error("Arithmetic overflow.");
                            },
                        }
                    },
                    _ => {
                        proof {
                            assert(false);
                        }
                        Type::Nil
                    },
                };
                self.push(v);
                Ok(())
            },
            _ => runtime_error("Operands must be two numbers"),
        }
    }

    /// Runs the installed chunk from the current cursor to its return
    /// instruction or to the first error — precisely `spec_run` on the
    /// current state. Printed lines accumulate in the output buffer; after
    /// an error the caller resets the stack.
    pub fn run(&mut self) -> (r: Result<(), VmError>)
        requires
            old(self).wf(),
            old(self).spec_chunk() is Some,
        ensures
            final(self).wf(),
            final(self).spec_chunk() == old(self).spec_chunk(),
            ({
                let c = old(self).spec_chunk().unwrap();
                let ro = spec_run(c.code@, c.constants@, old(self).state_view());
                &&& final(self).state_view() == ro.0
                &&& match r {
                    Ok(_) => ro.1 == RunOut::Done,
                    Err(e) => ro.1 matches RunOut::Fail { msg } && e.message@ == msg && e.code
                        == 70,
                }
            }),
    {
        let ghost code = self.chunk.unwrap().code@;
        let ghost consts = self.chunk.unwrap().constants@;
        let ghost st0 = self.state_view();
        loop
            invariant
                self.wf(),
                self.chunk == old(self).chunk,
                self.chunk is Some,
                code == self.chunk.unwrap().code@,
                consts == self.chunk.unwrap().constants@,
                st0 == old(self).state_view(),
                spec_run(code, consts, self.state_view()) == spec_run(code, consts, st0),
            decreases code.len() - self.ip.pos,
        {
            let ghost st_a = self.state_view();
            let b = match self.read_byte() {
                Some(b) => b,
                None => {
                    return runtime_error("Unexpected end of bytecode.");
                },
            };
            let op = match OpCode::decode(b) {
                Some(op) => op,
                None => {
                    proof {
                        assert(self.state_view() =~= VmState { pos: st_a.pos + 1, ..st_a });
                    }
                    return runtime_error("unknown opcode.");
                },
            };
            match op {
                OpCode::Return => {
                    proof {
                        assert(self.state_view() =~= VmState { pos: st_a.pos + 1, ..st_a });
                    }
                    return Ok(());
                },
                OpCode::Constant => {
                    let v = match self.read_constant() {
                        Ok(v) => v,
                        Err(e) => {
                            proof {
                                assert(self.state_view() =~= VmState {
                                    pos: self.state_view().pos,
                                    ..st_a
                                });
                            }
                            return Err(e);
                        },
                    };
                    if self.stack.len() >= STACK_MAX {
                        proof {
                            assert(self.state_view() =~= VmState { pos: st_a.pos + 2, ..st_a });
                        }
                        return runtime_error("Stack overflow.");
                    }
                    self.push(v);
                    proof {
                        assert(self.state_view() =~= VmState {
                            pos: st_a.pos + 2,
                            stack: st_a.stack.push(v),
                            ..st_a
                        });
                        assert(spec_run(code, consts, st_a) == spec_run(
                            code,
                            consts,
                            self.state_view(),
                        ));
                    }
                },
                OpCode::True => {
                    if self.stack.len() >= STACK_MAX {
                        proof {
                            assert(self.state_view() =~= VmState { pos: st_a.pos + 1, ..st_a });
                        }
                        return runtime_error("Stack overflow.");
                    }
                    self.push(Type::Bool(true));
                    proof {
                        assert(self.state_view() =~= VmState {
                            pos: st_a.pos + 1,
                            stack: st_a.stack.push(Type::Bool(true)),
                            ..st_a
                        });
                    }
                },
                OpCode::False => {
                    if self.stack.len() >= STACK_MAX {
                        proof {
                            assert(self.state_view() =~= VmState { pos: st_a.pos + 1, ..st_a });
                        }
                        return runtime_error("Stack overflow.");
                    }
                    self.push(Type::Bool(false));
                    proof {
                        assert(self.state_view() =~= VmState {
                            pos: st_a.pos + 1,
                            stack: st_a.stack.push(Type::Bool(false)),
                            ..st_a
                        });
                    }
                },
                OpCode::Nil => {
                    if self.stack.len() >= STACK_MAX {
                        proof {
                            assert(self.state_view() =~= VmState { pos: st_a.pos + 1, ..st_a });
                        }
                        return runtime_error("Stack overflow.");
                    }
                    self.push(Type::Nil);
                    proof {
                        assert(self.state_view() =~= VmState {
                            pos: st_a.pos + 1,
                            stack: st_a.stack.push(Type::Nil),
                            ..st_a
                        });
                    }
                },
                OpCode::Not => {
                    let v = self.pop();
                    let fal = v.is_falsy();
                    self.push(Type::Bool(fal));
                    proof {
                        assert(self.state_view() =~= VmState {
                            pos: st_a.pos + 1,
                            stack: spec_pop(st_a.stack).1.push(Type::Bool(spec_falsy(v))),
                            ..st_a
                        });
                    }
                },
                OpCode::Equal => {
                    let b_val = self.pop();
                    let a_val = self.pop();
                    self.push(Type::Bool(a_val == b_val));
                    proof {
                        assert(self.state_view() =~= VmState {
                            pos: st_a.pos + 1,
                            stack: spec_pop(spec_pop(st_a.stack).1).1.push(
                                Type::Bool(a_val == b_val),
                            ),
                            ..st_a
                        });
                    }
                },
                OpCode::Negate => {
                    let v = self.pop();
                    match v {
                        Type::Number(n) => {
                            if n == i32::MIN {
                                proof {
                                    assert(self.state_view() =~= VmState {
                                        pos: st_a.pos + 1,
                                        stack: spec_pop(st_a.stack).1,
                                        ..st_a
                                    });
                                }
                                return runtime_error("Arithmetic overflow.");
                            }
                            self.push(Type::Number(-n));
                            proof {
                                assert(self.state_view() =~= VmState {
                                    pos: st_a.pos + 1,
                                    stack: spec_pop(st_a.stack).1.push(Type::Number((-n) as i32)),
                                    ..st_a
                                });
                            }
                        },
                        _ => {
                            proof {
                                assert(self.state_view() =~= VmState {
                                    pos: st_a.pos + 1,
                                    stack: spec_pop(st_a.stack).1,
                                    ..st_a
                                });
                            }
                            let kind: &str = match v {
                                Type::Bool(_) => "bool",
                                Type::Nil => "nil",
                                Type::Object(_) => "object",
                                Type::Number(_) => "number",
                            };
                            let e = match TryFromValueError::new::<i32>("number", kind) {
                                Err(e) => e,
                                Ok(_) => {
                                    proof {
                                        assert(false);
                                    }
                                    return Ok(());
                                },
                            };
                            return Err(VmError::from_try(e));
                        },
                    }
                },
                OpCode::Subtract | OpCode::Divide | OpCode::Multiply | OpCode::Greater
                    | OpCode::Less => {
                    let res = self.binary_operation(op);
                    proof {
                        assert(self.state_view() =~= VmState {
                            pos: st_a.pos + 1,
                            stack: self.state_view().stack,
                            ..st_a
                        });
                    }
                    match res {
                        Ok(_) => {},
                        Err(e) => {
                            return Err(e);
                        },
                    }
                },
                OpCode::Add => {
                    let b_peek = self.peek(0);
                    let a_peek = self.peek(1);
                    match (a_peek, b_peek) {
                        (
                            Type::Object(ObjectPointer::String(pa)),
                            Type::Object(ObjectPointer::String(pb)),
                        ) => {
                            let mut content: Vec<u8> = Vec::new();
                            extend_bytes(&mut content, self.memory.string_content(pa).as_slice());
                            extend_bytes(&mut content, self.memory.string_content(pb).as_slice());
                            let ptr = self.memory.allocate_string(content.as_slice());
                            self.pop();
                            self.pop();
                            self.push(Type::Object(ObjectPointer::String(ptr)));
                            proof {
                                let spec_content = st_a.heap[pa.0 as int] + st_a.heap[pb.0 as int];
                                assert(content@ == spec_content);
                                let (heap2, idx) = spec_intern(st_a.heap, spec_content);
                                assert(self.state_view() =~= VmState {
                                    pos: st_a.pos + 1,
                                    stack: st_a.stack.drop_last().drop_last().push(
                                        Type::Object(
                                            ObjectPointer::String(StringPointer(idx as usize)),
                                        ),
                                    ),
                                    heap: heap2,
                                    ..st_a
                                });
                            }
                        },
                        (Type::Number(a), Type::Number(b)) => {
                            let sum = match a.checked_add(b) {
                                Some(s) => s,
                                None => {
                                    self.pop();
                                    self.pop();
                                    proof {
                                        assert(self.state_view() =~= VmState {
                                            pos: st_a.pos + 1,
                                            stack: st_a.stack.drop_last().drop_last(),
                                            ..st_a
                                        });
                                    }
                                    return runtime_error("Arithmetic overflow.");
                                },
                            };
                            self.pop();
                            self.pop();
                            self.push(Type::Number(sum));
                            proof {
                                assert(self.state_view() =~= VmState {
                                    pos: st_a.pos + 1,
                                    stack: st_a.stack.drop_last().drop_last().push(
                                        Type::Number(sum),
                                    ),
                                    ..st_a
                                });
                            }
                        },
                        _ => {
                            proof {
                                assert(self.state_view() =~= VmState { pos: st_a.pos + 1, ..st_a });
                            }
                            return runtime_error("Operands must be two numbers or two strings");
                        },
                    }
                },
                OpCode::Print => {
                    let v = self.pop();
                    let line = render_value(&v, &self.memory);
                    self.output.push(line);
                    proof {
                        assert(self.spec_output() =~= st_a.output.push(spec_render(v, st_a.heap)));
                        assert(self.state_view() =~= VmState {
                            pos: st_a.pos + 1,
                            stack: spec_pop(st_a.stack).1,
                            output: st_a.output.push(spec_render(v, st_a.heap)),
                            ..st_a
                        });
                    }
                },
                OpCode::Pop => {
                    self.pop();
                    proof {
                        assert(self.state_view() =~= VmState {
                            pos: st_a.pos + 1,
                            stack: spec_pop(st_a.stack).1,
                            ..st_a
                        });
                    }
                },
                OpCode::DefineGlobal => {
                    let name = match self.read_string() {
                        Ok(n) => n,
                        Err(e) => {
                            proof {
                                assert(self.state_view() =~= VmState {
                                    pos: self.state_view().pos,
                                    ..st_a
                                });
                            }
                            return Err(e);
                        },
                    };
                    let v = self.peek(0);
                    self.memory.set_global(name, v);
                    self.pop();
                    proof {
                        assert(self.state_view() =~= VmState {
                            pos: st_a.pos + 2,
                            stack: spec_pop(st_a.stack).1,
                            globals: st_a.globals.insert(name.0 as int, v),
                            ..st_a
                        });
                    }
                },
                OpCode::GetGlobal => {
                    let name = match self.read_string() {
                        Ok(n) => n,
                        Err(e) => {
                            proof {
                                assert(self.state_view() =~= VmState {
                                    pos: self.state_view().pos,
                                    ..st_a
                                });
                            }
                            return Err(e);
                        },
                    };
                    match self.memory.get_global(name) {
                        None => {
                            proof {
                                assert(self.state_view() =~= VmState { pos: st_a.pos + 2, ..st_a });
                            }
                            return undefined_variable_error(&self.memory, name);
                        },
                        Some(v) => {
                            if self.stack.len() >= STACK_MAX {
                                proof {
                                    assert(self.state_view() =~= VmState {
                                        pos: st_a.pos + 2,
                                        ..st_a
                                    });
                                }
                                return runtime_error("Stack overflow.");
                            }
                            proof {
                                let gs = self.memory.globals_seq();
                                let w = choose|w: int|
                                    0 <= w < gs.len() && gs[w].0.0 == name.0 as int;
                                assert(spec_value_wf(gs[w].1, self.memory.heap_view().len()));
                            }
                            self.push(v);
                            proof {
                                assert(self.state_view() =~= VmState {
                                    pos: st_a.pos + 2,
                                    stack: st_a.stack.push(st_a.globals[name.0 as int]),
                                    ..st_a
                                });
                            }
                        },
                    }
                },
                OpCode::SetGlobal => {
                    let name = match self.read_string() {
                        Ok(n) => n,
                        Err(e) => {
                            proof {
                                assert(self.state_view() =~= VmState {
                                    pos: self.state_view().pos,
                                    ..st_a
                                });
                            }
                            return Err(e);
                        },
                    };
                    let v = self.peek(0);
                    match self.memory.assign_global(name, v) {
                        Err(e) => {
                            proof {
                                assert(self.state_view() =~= VmState { pos: st_a.pos + 2, ..st_a });
                            }
                            return Err(e);
                        },
                        Ok(_) => {
                            proof {
                                assert(self.state_view() =~= VmState {
                                    pos: st_a.pos + 2,
                                    globals: st_a.globals.insert(name.0 as int, v),
                                    ..st_a
                                });
                            }
                        },
                    }
                },
            }
            proof {
                assert(spec_run(code, consts, st_a) == spec_run(code, consts, self.state_view()));
            }
        }
    }

    /// Compiles and runs a source. A rejected source comes back as an error
    /// with exit code 65 and leaves globals, stack and output untouched
    /// (only interned strings may have been added); an accepted one is
    /// installed as the current chunk and run from its start under the
    /// machine semantics, with runtime errors carrying exit code 70.
    /// Globals and heap persist across calls.
    pub fn interpret(&mut self, source: &[u8]) -> (r: Result<(), VmError>)
        requires
            old(self).wf(),
            source@.len() < u32::MAX,
        ensures
            final(self).wf(),
            spec_seq_extends(
                final(self).spec_memory().heap_view(),
                old(self).spec_memory().heap_view(),
            ),
            match r {
                Err(e) => (e.code == 65 || e.code == 70) && (e.code == 65
                    ==> exists|errs: Seq<CompilerError>|
                        errs.len() > 0 && e.message@ == #[trigger] spec_join_error_renders(errs)),
                Ok(_) => true,
            },
            (r matches Err(e) && e.code == 65) ==> {
                &&& final(self).spec_memory().globals_view() == old(
                    self,
                ).spec_memory().globals_view()
                &&& final(self).spec_output() == old(self).spec_output()
                &&& final(self).spec_stack() == old(self).spec_stack()
                &&& final(self).spec_chunk() == old(self).spec_chunk()
            },
            ((r matches Err(e) && e.code == 65) <==> !spec_accepts(
                source@,
                old(self).spec_memory().heap_view(),
            )),
            (spec_accepts(source@, old(self).spec_memory().heap_view()) ==> (spec_compile(
                source@,
                old(self).spec_memory().heap_view(),
            ) matches CompOut::COk { code, consts, heap } ==> ({
                let ro = spec_run(
                    code,
                    consts,
                    VmState {
                        pos: 0,
                        stack: old(self).spec_stack(),
                        globals: old(self).spec_memory().globals_view(),
                        heap,
                        output: old(self).spec_output(),
                    },
                );
                &&& (final(self).spec_chunk() matches Some(c2) && c2.code@ == code
                    && c2.constants@ == consts)
                &&& final(self).state_view() == ro.0
                &&& match r {
                    Ok(_) => ro.1 == RunOut::Done,
                    Err(e) => ro.1 matches RunOut::Fail { msg } && e.message@ == msg && e.code
                        == 70,
                }
            }))),
    {
        let chunk = match compile(source, &mut self.memory) {
            Ok(c) => c,
            Err(errs) => {
                let mut msg: Vec<u8> = Vec::new();
                let mut i: usize = 0;
                while i < errs.len()
                    invariant
                        i <= errs@.len(),
                        msg@ == spec_join_error_renders(errs@.subrange(0, i as int)),
                    decreases errs@.len() - i,
                {
                    if i > 0 {
                        extend_str(&mut msg, "\n");
                    }
                    let line = errs[i].render();
                    extend_bytes(&mut msg, line.as_slice());
                    proof {
                        let pre = errs@.subrange(0, i as int);
                        let cur = errs@.subrange(0, i + 1 as int);
                        assert(cur.drop_last() =~= pre);
                        assert(cur.last() == errs@[i as int]);
                        if i == 0 {
                            assert(msg@ =~= spec_join_error_renders(cur));
                        } else {
                            assert(msg@ =~= spec_join_error_renders(cur));
                        }
                    }
                    i += 1;
                }
                proof {
                    assert(errs@.subrange(0, errs@.len() as int) =~= errs@);
                    assert(msg@ == spec_join_error_renders(errs@));
                }
                return Err(VmError { message: msg, code: 65 });
            },
        };
        proof {
            assert forall|i: int| 0 <= i < self.stack@.len() implies spec_value_wf(
                #[trigger] self.stack@[i],
                self.memory.heap_view().len(),
            ) by {
                assert(spec_value_wf(self.stack@[i], old(self).memory.heap_view().len()));
            }
        }
        let ghost cw = chunk;
        let ghost h1 = self.memory.heap_view();
        self.chunk = Some(chunk);
        self.ip = Ip::null();
        let r = self.run();
        proof {
            assert(spec_consts_wf(cw.constants@, h1.len()));
            lemma_run_extends(
                cw.code@,
                cw.constants@,
                VmState {
                    pos: 0,
                    stack: old(self).spec_stack(),
                    globals: old(self).spec_memory().globals_view(),
                    heap: h1,
                    output: old(self).spec_output(),
                },
            );
            crate::memory::lemma_seq_extends_trans(
                old(self).spec_memory().heap_view(),
                h1,
                self.memory.heap_view(),
            );
        }
        r
    }
}

/// The display name of an opcode, as the disassembler spells it.
pub open spec fn spec_opcode_name(op: OpCode) -> Seq<u8> {
    match op {
        OpCode::Return => "Return".spec_bytes(),
        OpCode::Constant => "Constant".spec_bytes(),
        OpCode::Add => "Add".spec_bytes(),
        OpCode::Subtract => "Subtract".spec_bytes(),
        OpCode::Divide => "Divide".spec_bytes(),
        OpCode::Multiply => "Multiply".spec_bytes(),
        OpCode::Negate => "Negate".spec_bytes(),
        OpCode::Not => "Not".spec_bytes(),
        OpCode::Equal => "Equal".spec_bytes(),
        OpCode::Greater => "Greater".spec_bytes(),
        OpCode::Less => "Less".spec_bytes(),
        OpCode::True => "True".spec_bytes(),
        OpCode::False => "False".spec_bytes(),
        OpCode::Nil => "Nil".spec_bytes(),
        OpCode::Print => "Print".spec_bytes(),
        OpCode::Pop => "Pop".spec_bytes(),
        OpCode::DefineGlobal => "DefineGlobal".spec_bytes(),
        OpCode::GetGlobal => "GetGlobal".spec_bytes(),
        OpCode::SetGlobal => "SetGlobal".spec_bytes(),
    }
}

/// A number in decimal, left-padded with zeros to at least four digits.
pub open spec fn spec_dec_pad4(n: nat) -> Seq<u8> {
    if n < 10 {
        "000".spec_bytes() + spec_dec_nat(n)
    } else if n < 100 {
        "00".spec_bytes() + spec_dec_nat(n)
    } else if n < 1000 {
        "0".spec_bytes() + spec_dec_nat(n)
    } else {
        spec_dec_nat(n)
    }
}

/// Renders a number zero-padded to at least four digits.
fn pad4(n: u64) -> (r: Vec<u8>)
    ensures
        r@ == spec_dec_pad4(n as nat),
{
    let mut out: Vec<u8> = Vec::new();
    if n < 10 {
        extend_str(&mut out, "000");
    } else if n < 100 {
        extend_str(&mut out, "00");
    } else if n < 1000 {
        extend_str(&mut out, "0");
    }
    let digits = dec_u64(n);
    extend_bytes(&mut out, digits.as_slice());
    proof {
        if n >= 1000 {
            assert(out@ =~= spec_dec_pad4(n as nat));
        }
    }
    out
}

/// How many code bytes one disassembled instruction reports: its opcode
/// byte plus the operand byte it names, whether or not that operand is
/// present in a truncated chunk.
pub open spec fn spec_disasm_count(code: Seq<u8>, pos: int) -> int {
    if pos < 0 || pos >= code.len() {
        1
    } else {
        match spec_decode(code[pos]) {
            Some(op) => spec_op_width(op) as int,
            None => 1,
        }
    }
}

/// The text of the instruction at `pos`: its opcode name and, for a
/// constant-referencing opcode, the operand index and the rendered value.
pub open spec fn spec_disasm_text(
    code: Seq<u8>,
    consts: Seq<Type>,
    heap: Seq<Seq<u8>>,
    pos: int,
) -> Seq<u8> {
    if pos < 0 || pos >= code.len() {
        Seq::empty()
    } else {
        match spec_decode(code[pos]) {
            None => "unknown opcode.".spec_bytes(),
            Some(op) => if spec_op_width(op) == 2 && pos + 1 < code.len() {
                let idx = code[pos + 1];
                let rendered = if idx < consts.len() {
                    spec_render(consts[idx as int], heap)
                } else {
                    "?".spec_bytes()
                };
                spec_opcode_name(op) + "    ".spec_bytes() + spec_dec_nat(idx as nat)
                    + " '".spec_bytes() + rendered + "'".spec_bytes()
            } else {
                spec_opcode_name(op)
            },
        }
    }
}

/// The full disassembly from `pos` on: one line per instruction, each
/// `<offset> <line> <text>` with the offset and line zero-padded to four
/// digits.
pub open spec fn spec_disassemble(
    code: Seq<u8>,
    consts: Seq<Type>,
    lines: Seq<u32>,
    heap: Seq<Seq<u8>>,
    pos: int,
) -> Seq<u8>
    decreases code.len() - pos,
{
    if pos < 0 || pos >= code.len() {
        Seq::empty()
    } else {
        let line = if pos < lines.len() {
            lines[pos]
        } else {
            0u32
        };
        let tail = if pos + spec_disasm_count(code, pos) < code.len() {
            spec_disassemble(code, consts, lines, heap, pos + spec_disasm_count(code, pos))
        } else {
            Seq::empty()
        };
        spec_dec_pad4(pos as nat) + " ".spec_bytes() + spec_dec_pad4(line as nat)
            + " ".spec_bytes() + spec_disasm_text(code, consts, heap, pos) + "\n".spec_bytes()
            + tail
    }
}

impl Ip {
    /// Disassembles the instruction at the cursor: how many bytes it spans
    /// and its text; the cursor moves past the bytes actually read.
    pub fn dissasemble_instruction(&mut self, chunk: &Chunk, mem: &Memory) -> (r: (usize, Vec<u8>))
        requires
            spec_consts_wf(chunk.constants@, mem.heap_view().len()),
        ensures
            r.0 == spec_disasm_count(chunk.code@, old(self).pos as int),
            r.1@ == spec_disasm_text(
                chunk.code@,
                chunk.constants@,
                mem.heap_view(),
                old(self).pos as int,
            ),
            final(self).pos == old(self).pos + (if old(self).pos as int >= chunk.code@.len() {
                0int
            } else if spec_decode(chunk.code@[old(self).pos as int]) matches Some(op) && (
            spec_op_width(op) == 2 && old(self).pos + 1 < chunk.code@.len()) {
                2int
            } else {
                1int
            }),
    {
        let b = match self.next(chunk) {
            Some(b) => b,
            None => {
                return (1, Vec::new());
            },
        };
        let op = match OpCode::decode(b) {
            Some(op) => op,
            None => {
                let mut out: Vec<u8> = Vec::new();
                extend_str(&mut out, "unknown opcode.");
                return (1, out);
            },
        };
        let name: &str = match op {
            OpCode::Return => "Return",
            OpCode::Constant => "Constant",
            OpCode::Add => "Add",
            OpCode::Subtract => "Subtract",
            OpCode::Divide => "Divide",
            OpCode::Multiply => "Multiply",
            OpCode::Negate => "Negate",
            OpCode::Not => "Not",
            OpCode::Equal => "Equal",
            OpCode::Greater => "Greater",
            OpCode::Less => "Less",
            OpCode::True => "True",
            OpCode::False => "False",
            OpCode::Nil => "Nil",
            OpCode::Print => "Print",
            OpCode::Pop => "Pop",
            OpCode::DefineGlobal => "DefineGlobal",
            OpCode::GetGlobal => "GetGlobal",
            OpCode::SetGlobal => "SetGlobal",
        };
        let wide = match op {
            OpCode::Constant => true,
            OpCode::DefineGlobal => true,
            OpCode::GetGlobal => true,
            OpCode::SetGlobal => true,
            _ => false,
        };
        let mut out: Vec<u8> = Vec::new();
        extend_str(&mut out, name);
        if !wide {
            return (1, out);
        }
        let idx = match self.next(chunk) {
            Some(idx) => idx,
            None => {
                return (2, out);
            },
        };
        extend_str(&mut out, "    ");
        let digits = dec_u64(idx as u64);
        extend_bytes(&mut out, digits.as_slice());
        extend_str(&mut out, " '");
        if (idx as usize) < chunk.constants.len() {
            let v = self.constant(chunk, idx);
            let rendered = render_value(&v, mem);
            extend_bytes(&mut out, rendered.as_slice());
        } else {
            extend_str(&mut out, "?");
        }
        extend_str(&mut out, "'");
        (2, out)
    }
}

/// The whole diagnostic text of a chunk: every instruction on its own line.
/// A pure function of the chunk's bytes, constants and the heap — the same
/// chunk always disassembles to the same text.
pub fn disassemble_chunk(chunk: &Chunk, mem: &Memory) -> (r: Vec<u8>)
    requires
        spec_consts_wf(chunk.constants@, mem.heap_view().len()),
        chunk.code@.len() + 2 <= usize::MAX,
    ensures
        r@ == spec_disassemble(chunk.code@, chunk.constants@, chunk.lines@, mem.heap_view(), 0),
{
    let mut out: Vec<u8> = Vec::new();
    let mut pos: usize = 0;
    let n = chunk.code.len();
    while pos < n
        invariant
            n == chunk.code@.len(),
            n + 2 <= usize::MAX,
            spec_consts_wf(chunk.constants@, mem.heap_view().len()),
            out@ + spec_disassemble(
                chunk.code@,
                chunk.constants@,
                chunk.lines@,
                mem.heap_view(),
                pos as int,
            ) == spec_disassemble(
                chunk.code@,
                chunk.constants@,
                chunk.lines@,
                mem.heap_view(),
                0,
            ),
        decreases n - pos,
    {
        let ghost out0 = out@;
        let off = pad4(pos as u64);
        extend_bytes(&mut out, off.as_slice());
        extend_str(&mut out, " ");
        let line = chunk.lines.get_line(pos);
        let line_digits = pad4(line as u64);
        extend_bytes(&mut out, line_digits.as_slice());
        extend_str(&mut out, " ");
        let mut ip = Ip { pos };
        let pair = ip.dissasemble_instruction(chunk, mem);
        extend_bytes(&mut out, pair.1.as_slice());
        extend_str(&mut out, "\n");
        proof {
            let code = chunk.code@;
            let consts = chunk.constants@;
            let lns = chunk.lines@;
            let heap = mem.heap_view();
            let lv = if (pos as int) < lns.len() {
                lns[pos as int]
            } else {
                0u32
            };
            assert(out@ =~= out0 + (spec_dec_pad4(pos as nat) + " ".spec_bytes() + spec_dec_pad4(
                lv as nat,
            ) + " ".spec_bytes() + spec_disasm_text(code, consts, heap, pos as int)
                + "\n".spec_bytes()));
            let tail = if pos + spec_disasm_count(code, pos as int) < code.len() {
                spec_disassemble(
                    code,
                    consts,
                    lns,
                    heap,
                    pos + spec_disasm_count(code, pos as int),
                )
            } else {
                Seq::<u8>::empty()
            };
            assert(spec_disassemble(code, consts, lns, heap, pos as int) == (spec_dec_pad4(
                pos as nat,
            ) + " ".spec_bytes() + spec_dec_pad4(lv as nat) + " ".spec_bytes() + spec_disasm_text(
                code,
                consts,
                heap,
                pos as int,
            ) + "\n".spec_bytes()) + tail);
            assert(out@ + tail =~= out0 + spec_disassemble(code, consts, lns, heap, pos as int));
        }
        if pair.0 < n - pos {
            pos = pos + pair.0;
        } else {
            pos = n;
            proof {
                assert(spec_disassemble(
                    chunk.code@,
                    chunk.constants@,
                    chunk.lines@,
                    mem.heap_view(),
                    pos as int,
                ) =~= Seq::<u8>::empty());
            }
        }
    }
    proof {
        assert(spec_disassemble(
            chunk.code@,
            chunk.constants@,
            chunk.lines@,
            mem.heap_view(),
            pos as int,
        ) =~= Seq::<u8>::empty());
        assert(out@ =~= out@ + Seq::<u8>::empty());
    }
    out
}

/// Compiles and runs a source on the given machine: the top-level entry the
/// host calls once per file or REPL line.
pub fn interpret(vm: &mut Vm, source: &[u8]) -> (r: Result<(), VmError>)
    requires
        old(vm).wf(),
        source@.len() < u32::MAX,
    ensures
        final(vm).wf(),
        spec_seq_extends(final(vm).spec_memory().heap_view(), old(vm).spec_memory().heap_view()),
        match r {
            Err(e) => e.code == 65 || e.code == 70,
            Ok(_) => true,
        },
        (r matches Err(e) && e.code == 65) ==> {
            &&& final(vm).spec_memory().globals_view() == old(vm).spec_memory().globals_view()
            &&& final(vm).spec_output() == old(vm).spec_output()
            &&& final(vm).spec_stack() == old(vm).spec_stack()
        },
        ((r matches Err(e) && e.code == 65) <==> !spec_accepts(
            source@,
            old(vm).spec_memory().heap_view(),
        )),
    {
        vm.interpret(source)
    }

} // verus!
