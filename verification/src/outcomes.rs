//! What the numeric and local operators of a function body append to the script and leave on
//! the operand stack, and the laws these outcomes obey.

use vstd::prelude::*;

use crate::control::{
    branches_within, case_end, case_jump, cases_branch, jump_target, selected_depth, table_depths,
    ControlFrame,
};
use crate::emit::{push_int_bytes, StackValue};
use crate::locals::{load_bytes, store_bytes, LocalState};
use crate::module::{ArithKind, CmpKind};
use crate::opcodes::{ADD, AND, DIV, EQUAL, GE, GT, LE, LT, MOD, MUL, NOTEQUAL, OR, SHL, SUB, XOR};
use crate::ops::{
    as_const, fold_binary, fold_compare, fold_shift_right, fold_unsigned, fold_values,
    mask_operands_bytes, rotate_dynamic_bytes, rotate_dynamic_const, rotate_fold, shift_right_bytes,
    truncated, wrap, BinOp, CompareOp, ShiftKind, UnsignedOp,
};

verus! {

/// The width of a 64-bit (`wide`) or a 32-bit operator.
pub open spec fn width_bits(wide: bool) -> u32 {
    if wide {
        64
    } else {
        32
    }
}

/// A value computed at run time by code that ends the script.
pub open spec fn computed(const_value: Option<i128>) -> StackValue {
    StackValue { const_value, bytecode_start: None }
}

/// An operator computed by one NeoVM instruction: the instruction is appended, and the result
/// is the folded constant when both operands are constants.
pub open spec fn single_instruction(
    script: Seq<u8>,
    instruction: u8,
    op: BinOp,
    bits: u32,
    lhs: StackValue,
    rhs: StackValue,
) -> (Seq<u8>, StackValue) {
    (script.push(instruction), computed(fold_values(op, bits, lhs, rhs)))
}

/// An unsigned division or remainder: both operands are masked to their width first.
pub open spec fn unsigned_outcome(
    script: Seq<u8>,
    op: UnsignedOp,
    bits: u32,
    lhs: StackValue,
    rhs: StackValue,
) -> (Seq<u8>, StackValue) {
    (
        script + mask_operands_bytes(bits) + seq![
            match op {
                UnsignedOp::Div => DIV,
                UnsignedOp::Rem => MOD,
            },
        ],
        computed(
            match (lhs.const_value, rhs.const_value) {
                (Some(a), Some(b)) => as_const(fold_unsigned(op, a, b, bits)),
                _ => None,
            },
        ),
    )
}

/// A right shift.
pub open spec fn shift_outcome(
    script: Seq<u8>,
    kind: ShiftKind,
    bits: u32,
    lhs: StackValue,
    rhs: StackValue,
) -> (Seq<u8>, StackValue) {
    (
        script + shift_right_bytes(bits, kind),
        computed(
            match (lhs.const_value, rhs.const_value) {
                (Some(a), Some(b)) => Some(fold_shift_right(a, b, bits, kind) as i128),
                _ => None,
            },
        ),
    )
}

/// A rotation: two constants pushed by literals are replaced by the rotated constant;
/// otherwise the rotation is computed at run time.
pub open spec fn rotate_outcome(
    script: Seq<u8>,
    left: bool,
    bits: u32,
    value: StackValue,
    shift: StackValue,
) -> (Seq<u8>, StackValue) {
    match (value.const_value, shift.const_value, value.bytecode_start, shift.bytecode_start) {
        (Some(v), Some(s), Some(vs), Some(ss)) => {
            let start = if vs <= ss {
                vs
            } else {
                ss
            };
            let rotated = rotate_fold(v, s, bits, left);
            (
                truncated(script, start as int) + push_int_bytes(rotated),
                StackValue {
                    const_value: Some(rotated as i128),
                    bytecode_start: Some(truncated(script, start as int).len() as usize),
                },
            )
        },
        _ => (
            script + rotate_dynamic_bytes(bits, left),
            computed(rotate_dynamic_const(value.const_value, shift.const_value, bits, left)),
        ),
    }
}

/// What an integer arithmetic or bitwise operator of width `bits` appends to `script` and
/// leaves on the stack, for its operands `lhs` and `rhs`.
pub open spec fn arith_outcome(
    kind: ArithKind,
    bits: u32,
    script: Seq<u8>,
    lhs: StackValue,
    rhs: StackValue,
) -> (Seq<u8>, StackValue) {
    match kind {
        ArithKind::Add => single_instruction(script, ADD, BinOp::Add, bits, lhs, rhs),
        ArithKind::Sub => single_instruction(script, SUB, BinOp::Sub, bits, lhs, rhs),
        ArithKind::Mul => single_instruction(script, MUL, BinOp::Mul, bits, lhs, rhs),
        ArithKind::DivS => single_instruction(script, DIV, BinOp::DivS, bits, lhs, rhs),
        ArithKind::RemS => single_instruction(script, MOD, BinOp::RemS, bits, lhs, rhs),
        ArithKind::And => single_instruction(script, AND, BinOp::And, bits, lhs, rhs),
        ArithKind::Or => single_instruction(script, OR, BinOp::Or, bits, lhs, rhs),
        ArithKind::Xor => single_instruction(script, XOR, BinOp::Xor, bits, lhs, rhs),
        ArithKind::Shl => single_instruction(script, SHL, BinOp::Shl, bits, lhs, rhs),
        ArithKind::DivU => unsigned_outcome(script, UnsignedOp::Div, bits, lhs, rhs),
        ArithKind::RemU => unsigned_outcome(script, UnsignedOp::Rem, bits, lhs, rhs),
        ArithKind::ShrS => shift_outcome(script, ShiftKind::Arithmetic, bits, lhs, rhs),
        ArithKind::ShrU => shift_outcome(script, ShiftKind::Logical, bits, lhs, rhs),
        ArithKind::Rotl => rotate_outcome(script, true, bits, lhs, rhs),
        ArithKind::Rotr => rotate_outcome(script, false, bits, lhs, rhs),
    }
}

/// A signed (`signed`) or unsigned ordering comparison; the unsigned one masks its operands
/// to their width first.
pub open spec fn ordering_outcome(
    script: Seq<u8>,
    op: CompareOp,
    instruction: u8,
    signed: bool,
    bits: u32,
    lhs: StackValue,
    rhs: StackValue,
) -> (Seq<u8>, StackValue) {
    (
        if signed {
            script.push(instruction)
        } else {
            script + mask_operands_bytes(bits) + seq![instruction]
        },
        computed(fold_compare(op, bits, signed, lhs, rhs)),
    )
}

/// What an integer comparison of width `bits` appends to `script` and leaves on the stack.
pub open spec fn compare_outcome(
    kind: CmpKind,
    bits: u32,
    script: Seq<u8>,
    lhs: StackValue,
    rhs: StackValue,
) -> (Seq<u8>, StackValue) {
    match kind {
        CmpKind::Eq => single_instruction(script, EQUAL, BinOp::Eq, bits, lhs, rhs),
        CmpKind::Ne => single_instruction(script, NOTEQUAL, BinOp::Ne, bits, lhs, rhs),
        CmpKind::LtS => ordering_outcome(script, CompareOp::Lt, LT, true, bits, lhs, rhs),
        CmpKind::LtU => ordering_outcome(script, CompareOp::Lt, LT, false, bits, lhs, rhs),
        CmpKind::GtS => ordering_outcome(script, CompareOp::Gt, GT, true, bits, lhs, rhs),
        CmpKind::GtU => ordering_outcome(script, CompareOp::Gt, GT, false, bits, lhs, rhs),
        CmpKind::LeS => ordering_outcome(script, CompareOp::Le, LE, true, bits, lhs, rhs),
        CmpKind::LeU => ordering_outcome(script, CompareOp::Le, LE, false, bits, lhs, rhs),
        CmpKind::GeS => ordering_outcome(script, CompareOp::Ge, GE, true, bits, lhs, rhs),
        CmpKind::GeU => ordering_outcome(script, CompareOp::Ge, GE, false, bits, lhs, rhs),
    }
}

/// The operators that NeoVM computes with one instruction of its own are told apart by that
/// instruction: `add` ends in ADD, `sub` in SUB, `mul` in MUL, and no two of the
/// single-instruction operators end in the same instruction.
pub proof fn lemma_arith_instruction_is_the_operation(
    k1: ArithKind,
    k2: ArithKind,
    bits: u32,
    script: Seq<u8>,
    lhs: StackValue,
    rhs: StackValue,
)
    requires
        k1 is Add || k1 is Sub || k1 is Mul || k1 is DivS || k1 is RemS || k1 is And || k1 is Or
            || k1 is Xor || k1 is Shl,
        k2 is Add || k2 is Sub || k2 is Mul || k2 is DivS || k2 is RemS || k2 is And || k2 is Or
            || k2 is Xor || k2 is Shl,
    ensures
        arith_outcome(k1, bits, script, lhs, rhs).0.len() == script.len() + 1,
        arith_outcome(k1, bits, script, lhs, rhs).0.subrange(0, script.len() as int) == script,
        k1 is Add ==> arith_outcome(k1, bits, script, lhs, rhs).0.last() == ADD,
        k1 is Sub ==> arith_outcome(k1, bits, script, lhs, rhs).0.last() == SUB,
        k1 is Mul ==> arith_outcome(k1, bits, script, lhs, rhs).0.last() == MUL,
        k1 != k2 ==> arith_outcome(k1, bits, script, lhs, rhs).0.last() != arith_outcome(
            k2,
            bits,
            script,
            lhs,
            rhs,
        ).0.last(),
{
    assert(script.push(0u8).subrange(0, script.len() as int) =~= script);
    let a = arith_outcome(k1, bits, script, lhs, rhs).0;
    assert(a.subrange(0, script.len() as int) =~= script);
}

/// A constant result of `add`, `sub` or `mul` on two constants is the WebAssembly result:
/// the sum, difference or product of the operands wrapped to the width.
pub proof fn lemma_arith_folds_to_the_wasm_result(
    kind: ArithKind,
    bits: u32,
    script: Seq<u8>,
    lhs: StackValue,
    rhs: StackValue,
    a: i128,
    b: i128,
)
    requires
        lhs.const_value == Some(a),
        rhs.const_value == Some(b),
        bits == 32 || bits == 64,
    ensures
        ({
            let x = wrap(a as int, bits);
            let y = wrap(b as int, bits);
            let c = arith_outcome(kind, bits, script, lhs, rhs).1.const_value;
            &&& kind is Add ==> c == as_const(Some(wrap(x + y, bits)))
            &&& kind is Sub ==> c == as_const(Some(wrap(x - y, bits)))
            &&& kind is Mul ==> c == as_const(Some(wrap(x * y, bits)))
        }),
{
}

/// What `local.get` of a local in state `state` appends to the script, and the value it
/// pushes: a local known to hold a constant is pushed as that constant, otherwise it is read
/// from its slot.
pub open spec fn local_get_outcome(state: LocalState, script: Seq<u8>) -> (Seq<u8>, StackValue) {
    match state.const_value {
        Some(v) => (
            script + push_int_bytes(v as int),
            StackValue { const_value: Some(v), bytecode_start: Some(script.len() as usize) },
        ),
        None => (script + load_bytes(state.kind), computed(None)),
    }
}

/// What `local.set` of `value` into a local in state `state` appends to the script, and the
/// local's new state.
pub open spec fn local_set_outcome(state: LocalState, value: StackValue, script: Seq<u8>) -> (
    Seq<u8>,
    LocalState,
) {
    (script + store_bytes(state.kind), LocalState { kind: state.kind, const_value: value.const_value })
}

/// What `local.tee` of `value` into a local in state `state` appends to the script, the value
/// it leaves on the stack, and the local's new state.
pub open spec fn local_tee_outcome(state: LocalState, value: StackValue, script: Seq<u8>) -> (
    Seq<u8>,
    StackValue,
    LocalState,
) {
    let stored = LocalState { kind: state.kind, const_value: value.const_value };
    let after_store = script + store_bytes(state.kind);
    match value.const_value {
        Some(v) => (
            after_store + push_int_bytes(v as int),
            StackValue { const_value: Some(v), bytecode_start: Some(after_store.len() as usize) },
            stored,
        ),
        None => (after_store + load_bytes(state.kind), computed(None), stored),
    }
}

/// `local.tee` is `local.set` followed by `local.get` of the same local: it stores the value
/// and leaves on the stack what reading the local back gives.
pub proof fn lemma_tee_is_set_then_get(state: LocalState, value: StackValue, script: Seq<u8>)
    ensures
        ({
            let (s1, stored) = local_set_outcome(state, value, script);
            let (s2, pushed) = local_get_outcome(stored, s1);
            local_tee_outcome(state, value, script) == (s2, pushed, stored)
        }),
{
}

/// After `local.tee`, the value on the stack is the value stored: the same constant, if any,
/// and the script grows past the store.
pub proof fn lemma_tee_keeps_the_value(state: LocalState, value: StackValue, script: Seq<u8>)
    ensures
        local_tee_outcome(state, value, script).1.const_value == value.const_value,
        local_tee_outcome(state, value, script).2.const_value == value.const_value,
        local_tee_outcome(state, value, script).0.len() > (script + store_bytes(state.kind)).len(),
        local_tee_outcome(state, value, script).0.subrange(
            0,
            (script + store_bytes(state.kind)).len() as int,
        ) == script + store_bytes(state.kind),
{
    let s1 = script + store_bytes(state.kind);
    match value.const_value {
        Some(v) => {
            assert(push_int_bytes(v as int).len() > 0);
            assert((s1 + push_int_bytes(v as int)).subrange(0, s1.len() as int) =~= s1);
        },
        None => {
            assert(load_bytes(state.kind).len() > 0);
            assert((s1 + load_bytes(state.kind)).subrange(0, s1.len() as int) =~= s1);
        },
    }
}

/// A `br_table` whose index is known only at run time takes, for an index in range, the same
/// branch as one whose index is that constant: the code that case `c`'s test jumps to branches
/// to the depth [`selected_depth`] gives for `c`, which is the `c`-th depth of the table.
pub proof fn lemma_dynamic_case_is_the_selected_branch(
    script: Seq<u8>,
    frames0: Seq<ControlFrame>,
    frames1: Seq<ControlFrame>,
    l: int,
    depths: Seq<usize>,
    default_depth: usize,
    c: i128,
)
    requires
        cases_branch(script, frames0, frames1, l, depths.len() as int, depths),
        0 <= c < depths.len(),
    ensures
        selected_depth(depths, default_depth, c) == depths[c as int],
        branches_within(
            script,
            frames0,
            frames1,
            selected_depth(depths, default_depth, c),
            jump_target(script, case_jump(l, c as int)),
            case_end(script, l, depths.len() as int, c as int),
        ),
{
    reveal(cases_branch);
    assert(branches_within(
        script,
        frames0,
        frames1,
        depths[c as int] as int,
        jump_target(script, case_jump(l, c as int)),
        case_end(script, l, depths.len() as int, c as int),
    ));
}

/// The depths of a table are its targets, case by case, in order.
pub proof fn lemma_table_depths_in_order(targets: Seq<u32>)
    ensures
        table_depths(targets).len() == targets.len(),
        forall|i: int| 0 <= i < targets.len() ==> #[trigger] table_depths(targets)[i] == targets[i] as usize,
{
}

} // verus!
