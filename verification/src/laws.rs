//! The library's general laws, stated and proved once over the spec
//! functions its contracts use: interning behaves like interning, the
//! printed form of a number is its decimal form, and disassembly is a pure
//! function of the chunk.

use vstd::prelude::*;
use vstd::string::StringSliceAdditionalSpecFns;
use crate::chunk::OpCode;
use crate::chunk::spec_opcode_byte;
use crate::memory::{
    lemma_find_from_range, lemma_find_str_at, spec_find_str, spec_heap_unique, spec_intern,
};
use crate::text::{spec_all_digits, spec_dec_int, spec_dec_nat, spec_dec_val};
use crate::value::{ObjectPointer, StringPointer, Type};
use crate::vm::{RunOut, VmState, spec_disassemble, spec_run, STACK_MAX};

verus! {

/// Interning is idempotent: interning content that is already interned
/// returns the same slot again and leaves the heap unchanged.
pub proof fn lemma_intern_idempotent(heap: Seq<Seq<u8>>, s: Seq<u8>)
    ensures
        spec_intern(spec_intern(heap, s).0, s).0 == spec_intern(heap, s).0,
        spec_intern(spec_intern(heap, s).0, s).1 == spec_intern(heap, s).1,
{
    lemma_find_from_range(heap, s, 0);
    let r = spec_find_str(heap, s);
    if r == -1 {
        let h1 = heap.push(s);
        assert(h1[heap.len() as int] == s);
        lemma_find_str_at(h1, s, heap.len() as int);
    }
}

/// After interning, handle equality coincides with content equality: two
/// contents interned into a duplicate-free heap get the same slot exactly
/// when they are equal.
pub proof fn lemma_intern_identity(heap: Seq<Seq<u8>>, s1: Seq<u8>, s2: Seq<u8>)
    requires
        spec_heap_unique(heap),
    ensures
        ({
            let (h1, i1) = spec_intern(heap, s1);
            let i2 = spec_intern(h1, s2).1;
            i1 == i2 <==> s1 == s2
        }),
{
    lemma_find_from_range(heap, s1, 0);
    let (h1, i1) = spec_intern(heap, s1);
    assert(h1[i1] == s1);
    lemma_find_from_range(h1, s2, 0);
    let i2 = spec_intern(h1, s2).1;
    if spec_find_str(h1, s2) == -1 {
        assert(h1[i1] != s2);
        assert(i2 == h1.len() as int);
    } else {
        assert(h1[i2] == s2);
        if i1 == i2 {
            assert(s1 == s2);
        }
        if s1 == s2 {
            // the first slot holding the content is unique in a
            // duplicate-free heap, and interning added no duplicate
            if spec_find_str(heap, s1) == -1 {
                assert(forall|j: int| 0 <= j < heap.len() ==> heap[j] != s1);
                assert(forall|j: int| 0 <= j < h1.len() ==> h1[j] == s1 ==> j == i1);
            } else {
                assert(forall|j: int| 0 <= j < i1 ==> h1[j] != s1);
            }
            assert(i2 == i1);
        }
    }
}

/// The decimal form of a natural number is all digits, and reading it back
/// yields the number: rendering and parsing invert each other.
pub proof fn lemma_dec_round_trip(n: nat)
    ensures
        spec_all_digits(spec_dec_nat(n)),
        spec_dec_val(spec_dec_nat(n)) == n,
    decreases n,
{
    assert(spec_dec_val(Seq::<u8>::empty()) == 0);
    if n < 10 {
        assert(spec_dec_nat(n) =~= seq![(48 + n) as u8]);
        assert(spec_dec_nat(n).drop_last() =~= Seq::<u8>::empty());
        assert(spec_dec_val(spec_dec_nat(n)) == spec_dec_val(Seq::<u8>::empty()) * 10 + (
        spec_dec_nat(n).last() - 48));
    } else {
        lemma_dec_round_trip(n / 10);
        assert(spec_dec_nat(n) == spec_dec_nat(n / 10).push((48 + n % 10) as u8));
        assert(spec_dec_nat(n).drop_last() =~= spec_dec_nat(n / 10));
        assert(spec_dec_nat(n).last() == (48 + n % 10) as u8);
        assert(spec_dec_val(spec_dec_nat(n)) == spec_dec_val(spec_dec_nat(n / 10)) * 10 + (n % 10));
        assert((n / 10) * 10 + n % 10 == n);
    }
}

/// Printing a number: running a chunk that loads the number and prints it
/// outputs exactly the decimal form of that number, for every machine
/// number, and touches neither globals nor heap.
pub proof fn lemma_print_number_output(n: i32, st: VmState)
    requires
        st.pos == 0,
        st.stack.len() < STACK_MAX,
    ensures
        ({
            let code = seq![
                spec_opcode_byte(OpCode::Constant),
                0u8,
                spec_opcode_byte(OpCode::Print),
                spec_opcode_byte(OpCode::Return),
            ];
            let consts = seq![Type::Number(n)];
            let ro = spec_run(code, consts, st);
            &&& ro.1 == RunOut::Done
            &&& ro.0.output == st.output.push(spec_dec_int(n as int))
            &&& ro.0.stack == st.stack
            &&& ro.0.globals == st.globals
            &&& ro.0.heap == st.heap
        }),
{
    let code = seq![
        spec_opcode_byte(OpCode::Constant),
        0u8,
        spec_opcode_byte(OpCode::Print),
        spec_opcode_byte(OpCode::Return),
    ];
    let consts = seq![Type::Number(n)];
    let st1 = VmState { pos: 2, stack: st.stack.push(Type::Number(n)), ..st };
    assert(spec_run(code, consts, st) == spec_run(code, consts, st1));
    let st2 = VmState {
        pos: 3,
        stack: st.stack,
        output: st.output.push(spec_dec_int(n as int)),
        ..st
    };
    assert(st.stack.push(Type::Number(n)).drop_last() =~= st.stack);
    assert(spec_run(code, consts, st1) == spec_run(code, consts, st2));
    assert(spec_run(code, consts, st2) == (VmState { pos: 4, ..st2 }, RunOut::Done));
}

/// Desugared comparison: the machine computes `a >= b` as the logical not
/// of `a < b`, so the chunk the compiler emits for `>=` prints `true`
/// exactly when `a >= b` — for every pair of machine numbers.
pub proof fn lemma_desugared_greater_equal(a: i32, b: i32, st: VmState)
    requires
        st.pos == 0,
        st.stack.len() + 2 <= STACK_MAX,
    ensures
        ({
            let code = seq![
                spec_opcode_byte(OpCode::Constant),
                0u8,
                spec_opcode_byte(OpCode::Constant),
                1u8,
                spec_opcode_byte(OpCode::Less),
                spec_opcode_byte(OpCode::Not),
                spec_opcode_byte(OpCode::Print),
                spec_opcode_byte(OpCode::Return),
            ];
            let consts = seq![Type::Number(a), Type::Number(b)];
            let ro = spec_run(code, consts, st);
            &&& ro.1 == RunOut::Done
            &&& ro.0.output == st.output.push(
                if a >= b {
                    "true".spec_bytes()
                } else {
                    "false".spec_bytes()
                },
            )
        }),
{
    let code = seq![
        spec_opcode_byte(OpCode::Constant),
        0u8,
        spec_opcode_byte(OpCode::Constant),
        1u8,
        spec_opcode_byte(OpCode::Less),
        spec_opcode_byte(OpCode::Not),
        spec_opcode_byte(OpCode::Print),
        spec_opcode_byte(OpCode::Return),
    ];
    let consts = seq![Type::Number(a), Type::Number(b)];
    let st1 = VmState { pos: 2, stack: st.stack.push(Type::Number(a)), ..st };
    assert(spec_run(code, consts, st) == spec_run(code, consts, st1));
    let st2 = VmState {
        pos: 4,
        stack: st.stack.push(Type::Number(a)).push(Type::Number(b)),
        ..st
    };
    assert(spec_run(code, consts, st1) == spec_run(code, consts, st2));
    assert(st2.stack.drop_last() =~= st1.stack);
    assert(st1.stack.drop_last() =~= st.stack);
    let st3 = VmState {
        pos: 5,
        stack: st.stack.push(Type::Bool((a as int) < (b as int))),
        ..st
    };
    assert(spec_run(code, consts, st2) == spec_run(code, consts, st3));
    let st4 = VmState { pos: 6, stack: st.stack.push(Type::Bool(a >= b)), ..st };
    assert(st3.stack.drop_last() =~= st.stack);
    assert(spec_run(code, consts, st3) == spec_run(code, consts, st4));
    let st5 = VmState {
        pos: 7,
        stack: st.stack,
        output: st.output.push(
            if a >= b {
                "true".spec_bytes()
            } else {
                "false".spec_bytes()
            },
        ),
        ..st
    };
    assert(st4.stack.drop_last() =~= st.stack);
    assert(spec_run(code, consts, st4) == spec_run(code, consts, st5));
    assert(spec_run(code, consts, st5) == (VmState { pos: 8, ..st5 }, RunOut::Done));
}

/// Operator nesting: the chunk shape the compiler emits for `a + b * c`
/// (both operands of the sum on the stack, the product formed first)
/// prints exactly `a + b * c` — for all machine numbers whose product and
/// sum stay in range.
pub proof fn lemma_sum_of_product_output(a: i32, b: i32, c: i32, st: VmState)
    requires
        st.pos == 0,
        st.stack.len() + 3 <= STACK_MAX,
        i32::MIN <= b * c <= i32::MAX,
        i32::MIN <= a + b * c <= i32::MAX,
    ensures
        ({
            let code = seq![
                spec_opcode_byte(OpCode::Constant),
                0u8,
                spec_opcode_byte(OpCode::Constant),
                1u8,
                spec_opcode_byte(OpCode::Constant),
                2u8,
                spec_opcode_byte(OpCode::Multiply),
                spec_opcode_byte(OpCode::Add),
                spec_opcode_byte(OpCode::Print),
                spec_opcode_byte(OpCode::Return),
            ];
            let consts = seq![Type::Number(a), Type::Number(b), Type::Number(c)];
            let ro = spec_run(code, consts, st);
            &&& ro.1 == RunOut::Done
            &&& ro.0.output == st.output.push(spec_dec_int(a + b * c))
        }),
{
    let code = seq![
        spec_opcode_byte(OpCode::Constant),
        0u8,
        spec_opcode_byte(OpCode::Constant),
        1u8,
        spec_opcode_byte(OpCode::Constant),
        2u8,
        spec_opcode_byte(OpCode::Multiply),
        spec_opcode_byte(OpCode::Add),
        spec_opcode_byte(OpCode::Print),
        spec_opcode_byte(OpCode::Return),
    ];
    let consts = seq![Type::Number(a), Type::Number(b), Type::Number(c)];
    let st1 = VmState { pos: 2, stack: st.stack.push(Type::Number(a)), ..st };
    assert(spec_run(code, consts, st) == spec_run(code, consts, st1));
    let st2 = VmState { pos: 4, stack: st1.stack.push(Type::Number(b)), ..st };
    assert(spec_run(code, consts, st1) == spec_run(code, consts, st2));
    let st3 = VmState { pos: 6, stack: st2.stack.push(Type::Number(c)), ..st };
    assert(spec_run(code, consts, st2) == spec_run(code, consts, st3));
    assert(st3.stack.drop_last() =~= st2.stack);
    assert(st2.stack.drop_last() =~= st1.stack);
    let st4 = VmState {
        pos: 7,
        stack: st1.stack.push(Type::Number((b * c) as i32)),
        ..st
    };
    assert(spec_run(code, consts, st3) == spec_run(code, consts, st4));
    assert(st4.stack.drop_last() =~= st1.stack);
    assert(st1.stack.drop_last() =~= st.stack);
    let st5 = VmState {
        pos: 8,
        stack: st.stack.push(Type::Number((a + b * c) as i32)),
        ..st
    };
    assert(spec_run(code, consts, st4) == spec_run(code, consts, st5));
    assert(st5.stack.drop_last() =~= st.stack);
    let st6 = VmState {
        pos: 9,
        stack: st.stack,
        output: st.output.push(spec_dec_int(a + b * c)),
        ..st
    };
    assert(spec_run(code, consts, st5) == spec_run(code, consts, st6));
    assert(spec_run(code, consts, st6) == (VmState { pos: 10, ..st6 }, RunOut::Done));
}

/// Concatenation: running a chunk that loads two interned strings, adds
/// them and prints the result outputs exactly the two contents joined — for
/// every pair of interned strings.
pub proof fn lemma_concat_output(pa: usize, pb: usize, st: VmState)
    requires
        st.pos == 0,
        st.stack.len() + 2 <= STACK_MAX,
        st.heap.len() < usize::MAX,
        pa < st.heap.len(),
        pb < st.heap.len(),
    ensures
        ({
            let code = seq![
                spec_opcode_byte(OpCode::Constant),
                0u8,
                spec_opcode_byte(OpCode::Constant),
                1u8,
                spec_opcode_byte(OpCode::Add),
                spec_opcode_byte(OpCode::Print),
                spec_opcode_byte(OpCode::Return),
            ];
            let consts = seq![
                Type::Object(ObjectPointer::String(StringPointer(pa))),
                Type::Object(ObjectPointer::String(StringPointer(pb))),
            ];
            let ro = spec_run(code, consts, st);
            &&& ro.1 == RunOut::Done
            &&& ro.0.output == st.output.push(st.heap[pa as int] + st.heap[pb as int])
        }),
{
    let code = seq![
        spec_opcode_byte(OpCode::Constant),
        0u8,
        spec_opcode_byte(OpCode::Constant),
        1u8,
        spec_opcode_byte(OpCode::Add),
        spec_opcode_byte(OpCode::Print),
        spec_opcode_byte(OpCode::Return),
    ];
    let va = Type::Object(ObjectPointer::String(StringPointer(pa)));
    let vb = Type::Object(ObjectPointer::String(StringPointer(pb)));
    let consts = seq![va, vb];
    let st1 = VmState { pos: 2, stack: st.stack.push(va), ..st };
    assert(spec_run(code, consts, st) == spec_run(code, consts, st1));
    let st2 = VmState { pos: 4, stack: st.stack.push(va).push(vb), ..st };
    assert(spec_run(code, consts, st1) == spec_run(code, consts, st2));
    // the add instruction interns the joined content and pushes its handle
    let content = st.heap[pa as int] + st.heap[pb as int];
    let (heap2, idx) = spec_intern(st.heap, content);
    lemma_find_from_range(st.heap, content, 0);
    if spec_find_str(st.heap, content) == -1 {
        assert(heap2[idx] == content);
        assert(idx == st.heap.len());
    } else {
        assert(heap2[idx] == content);
        assert(0 <= idx < st.heap.len());
    }
    assert(idx as usize as int == idx);
    assert(st2.stack.drop_last() =~= st.stack.push(va));
    assert(st2.stack.drop_last().drop_last() =~= st.stack);
    let st3 = VmState {
        pos: 5,
        stack: st.stack.push(Type::Object(ObjectPointer::String(StringPointer(idx as usize)))),
        heap: heap2,
        ..st
    };
    assert(spec_run(code, consts, st2) == spec_run(code, consts, st3));
    assert(st3.stack.drop_last() =~= st.stack);
    assert(0 <= idx < heap2.len());
    let st4 = VmState {
        pos: 6,
        stack: st.stack,
        heap: heap2,
        output: st.output.push(content),
        ..st
    };
    assert(spec_run(code, consts, st3) == spec_run(code, consts, st4));
    assert(spec_run(code, consts, st4) == (VmState { pos: 7, ..st4 }, RunOut::Done));
}

/// Disassembly is stable: two chunks holding the same bytes, constants and
/// line table disassemble to the same text against the same heap, however
/// and whenever they were produced.
pub proof fn lemma_disassembly_stable(
    code1: Seq<u8>,
    consts1: Seq<Type>,
    lines1: Seq<u32>,
    code2: Seq<u8>,
    consts2: Seq<Type>,
    lines2: Seq<u32>,
    heap: Seq<Seq<u8>>,
)
    requires
        code1 == code2,
        consts1 == consts2,
        lines1 == lines2,
    ensures
        spec_disassemble(code1, consts1, lines1, heap, 0) == spec_disassemble(
            code2,
            consts2,
            lines2,
            heap,
            0,
        ),
{
}

} // verus!
