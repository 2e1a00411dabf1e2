//! Emission of integer operators, with folding of compile-time constants.
//!
//! Every emitter appends the NeoVM instructions that compute the operator at run time and
//! describes the result; when both operands are known constants, the description carries the
//! value that WebAssembly's 32- or 64-bit semantics give.

use vstd::prelude::*;

use crate::emit::{emit_push_int, keeps_prefix, lemma_keeps_prefix_cut, push_int_bytes, StackValue};
use crate::errors::TranslateError;
use crate::opcodes::{
    ADD, AND, DIV, DROP, EQUAL, GE, GT, LE, LT, MOD, MUL, NOTEQUAL, OR, PICK, PUSH0, SHL, SHR, SUB,
    SWAP, XOR,
};

verus! {

/// Whether `bits` is a WebAssembly integer width.
pub open spec fn valid_width(bits: u32) -> bool {
    bits == 32 || bits == 64
}

/// 2 to the power `n`.
pub open spec fn pow2i(n: nat) -> int
    decreases n,
{
    if n == 0 {
        1
    } else {
        2 * pow2i((n - 1) as nat)
    }
}

/// The number of values of a `bits`-wide integer.
pub open spec fn modulus(bits: u32) -> int {
    if bits == 32 {
        0x1_0000_0000
    } else {
        0x1_0000_0000_0000_0000
    }
}

/// The `bits`-wide two's-complement value congruent to `x`.
pub open spec fn wrap(x: int, bits: u32) -> int {
    let m = x % modulus(bits);
    if m >= modulus(bits) / 2 {
        m - modulus(bits)
    } else {
        m
    }
}

/// The `bits`-wide unsigned value congruent to `x`.
pub open spec fn unsigned_of(x: int, bits: u32) -> int {
    x % modulus(bits)
}

/// Integer division rounded toward zero.
pub open spec fn tdiv(x: int, d: int) -> int {
    if x == 0 {
        0
    } else if x > 0 && d > 0 {
        x / d
    } else if x < 0 && d < 0 {
        (-x) / (-d)
    } else if x < 0 {
        -((-x) / d)
    } else {
        -(x / (-d))
    }
}

/// The remainder of [`tdiv`]: it has the sign of the dividend.
pub open spec fn trem(x: int, d: int) -> int {
    if x == 0 {
        0
    } else if x > 0 && d > 0 {
        x % d
    } else if x < 0 && d < 0 {
        -((-x) % (-d))
    } else if x < 0 {
        -((-x) % d)
    } else {
        x % (-d)
    }
}

pub proof fn lemma_pow2i_values()
    ensures
        pow2i(31) == 0x8000_0000,
        pow2i(32) == 0x1_0000_0000,
        pow2i(63) == 0x8000_0000_0000_0000,
        pow2i(64) == 0x1_0000_0000_0000_0000,
{
    reveal_with_fuel(pow2i, 65);
}

pub proof fn lemma_pow2i_positive(n: nat)
    ensures
        pow2i(n) >= 1,
    decreases n,
{
    if n > 0 {
        lemma_pow2i_positive((n - 1) as nat);
    }
}

pub proof fn lemma_pow2i_monotonic(a: nat, b: nat)
    requires
        a <= b,
    ensures
        1 <= pow2i(a) <= pow2i(b),
    decreases b,
{
    lemma_pow2i_positive(a);
    if a < b {
        lemma_pow2i_monotonic(a, (b - 1) as nat);
    }
}

/// 2 to the power `n`, for `n <= 64`.
pub fn pow2_exec(n: u32) -> (r: i128)
    requires
        n <= 64,
    ensures
        r == pow2i(n as nat),
{
    let mut r: i128 = 1;
    let mut i: u32 = 0;
    while i < n
        invariant
            i <= n <= 64,
            r == pow2i(i as nat),
        decreases n - i,
    {
        proof {
            lemma_pow2i_monotonic((i + 1) as nat, 64);
            lemma_pow2i_values();
        }
        r = r * 2;
        i = i + 1;
    }
    r
}

/// The `bits`-wide two's-complement value congruent to `x`.
pub fn wrap_to(x: i128, bits: u32) -> (r: i128)
    requires
        valid_width(bits),
    ensures
        r == wrap(x as int, bits),
{
    let m: i128 = if bits == 32 { 0x1_0000_0000 } else { 0x1_0000_0000_0000_0000 };
    let half: i128 = if bits == 32 { 0x8000_0000 } else { 0x8000_0000_0000_0000 };
    let r = match x.checked_rem_euclid(m) {
        Some(r) => r,
        None => 0,
    };
    if r >= half {
        r - m
    } else {
        r
    }
}

/// The `bits`-wide unsigned value congruent to `x`.
pub fn unsigned_to(x: i128, bits: u32) -> (r: i128)
    requires
        valid_width(bits),
    ensures
        r == unsigned_of(x as int, bits),
        0 <= r < modulus(bits),
{
    let m: i128 = if bits == 32 { 0x1_0000_0000 } else { 0x1_0000_0000_0000_0000 };
    match x.checked_rem_euclid(m) {
        Some(r) => r,
        None => 0,
    }
}

/// A two-operand operator whose result one NeoVM instruction computes.
#[derive(Debug, Clone, Copy, PartialEq, Eq, Structural)]
pub enum BinOp {
    Add,
    Sub,
    Mul,
    And,
    Or,
    Xor,
    Shl,
    DivS,
    RemS,
    Eq,
    Ne,
    /// Bitwise AND of the full values, without reduction to the width.
    RawAnd,
    /// Bitwise OR of the full values, without reduction to the width.
    RawOr,
    /// Difference of the full values, without reduction to the width.
    RawSub,
}

/// The instruction that computes `op`.
pub open spec fn binop_opcode(op: BinOp) -> u8 {
    match op {
        BinOp::Add => ADD,
        BinOp::Sub | BinOp::RawSub => SUB,
        BinOp::Mul => MUL,
        BinOp::And | BinOp::RawAnd => AND,
        BinOp::Or | BinOp::RawOr => OR,
        BinOp::Xor => XOR,
        BinOp::Shl => SHL,
        BinOp::DivS => DIV,
        BinOp::RemS => MOD,
        BinOp::Eq => EQUAL,
        BinOp::Ne => NOTEQUAL,
    }
}

/// The smallest `bits`-wide signed value.
pub open spec fn min_signed(bits: u32) -> int {
    -(modulus(bits) / 2)
}

/// The constant result of `op` on the constants `a` and `b`, at width `bits`, when WebAssembly
/// defines one that the translator folds.
pub open spec fn fold_binary(op: BinOp, bits: u32, a: i128, b: i128) -> Option<int> {
    let x = wrap(a as int, bits);
    let y = wrap(b as int, bits);
    match op {
        BinOp::Add => Some(wrap(x + y, bits)),
        BinOp::Sub => Some(wrap(x - y, bits)),
        BinOp::Mul => Some(wrap(x * y, bits)),
        BinOp::And => Some(((x as i64) & (y as i64)) as int),
        BinOp::Or => Some(((x as i64) | (y as i64)) as int),
        BinOp::Xor => Some(((x as i64) ^ (y as i64)) as int),
        BinOp::Shl => Some(wrap(x * pow2i((b as int % bits as int) as nat), bits)),
        BinOp::DivS => if y == 0 || (x == min_signed(bits) && y == -1) {
            None
        } else {
            Some(tdiv(x, y))
        },
        BinOp::RemS => if y == 0 || (x == min_signed(bits) && y == -1) {
            None
        } else {
            Some(trem(x, y))
        },
        BinOp::Eq => Some(if a == b { 1 } else { 0 }),
        BinOp::Ne => Some(if a != b { 1 } else { 0 }),
        BinOp::RawAnd => Some((a & b) as int),
        BinOp::RawOr => Some((a | b) as int),
        BinOp::RawSub => if i128::MIN <= a - b <= i128::MAX {
            Some(a - b)
        } else {
            None
        },
    }
}

/// The constant a folded result describes, if it fits the tracked representation.
pub open spec fn as_const(v: Option<int>) -> Option<i128> {
    match v {
        Some(x) => if i128::MIN <= x <= i128::MAX {
            Some(x as i128)
        } else {
            None
        },
        None => None,
    }
}

/// The constant result of `op`, when both operands are constants.
pub open spec fn fold_values(op: BinOp, bits: u32, lhs: StackValue, rhs: StackValue) -> Option<
    i128,
> {
    match (lhs.const_value, rhs.const_value) {
        (Some(a), Some(b)) => as_const(fold_binary(op, bits, a, b)),
        _ => None,
    }
}

/// Computes [`fold_binary`].
pub fn fold_binary_exec(op: BinOp, bits: u32, a: i128, b: i128) -> (r: Option<i128>)
    requires
        valid_width(bits),
    ensures
        r == as_const(fold_binary(op, bits, a, b)),
{
    let x = wrap_to(a, bits);
    let y = wrap_to(b, bits);
    let min: i128 = if bits == 32 { -0x8000_0000 } else { -0x8000_0000_0000_0000 };
    match op {
        BinOp::Add => Some(wrap_to(x + y, bits)),
        BinOp::Sub => Some(wrap_to(x - y, bits)),
        BinOp::Mul => {
            assert(-0x4000_0000_0000_0000_0000_0000_0000_0000 <= x * y
                <= 0x4000_0000_0000_0000_0000_0000_0000_0000)
                by (nonlinear_arith)
                requires
                    -0x8000_0000_0000_0000 <= x < 0x8000_0000_0000_0000,
                    -0x8000_0000_0000_0000 <= y < 0x8000_0000_0000_0000,
            ;
            Some(wrap_to(x * y, bits))
        },
        BinOp::And => Some(((x as i64) & (y as i64)) as i128),
        BinOp::Or => Some(((x as i64) | (y as i64)) as i128),
        BinOp::Xor => Some(((x as i64) ^ (y as i64)) as i128),
        BinOp::Shl => {
            let s = match b.checked_rem_euclid(bits as i128) {
                Some(s) => s,
                None => 0,
            };
            let p = pow2_exec(s as u32);
            proof {
                lemma_pow2i_monotonic(s as nat, 63);
                lemma_pow2i_values();
            }
            assert(-0x4000_0000_0000_0000_0000_0000_0000_0000 <= x * p
                <= 0x4000_0000_0000_0000_0000_0000_0000_0000) by (nonlinear_arith)
                requires
                    -0x8000_0000_0000_0000 <= x < 0x8000_0000_0000_0000,
                    1 <= p <= 0x8000_0000_0000_0000,
            ;
            Some(wrap_to(x * p, bits))
        },
        BinOp::DivS => {
            if y == 0 || (x == min && y == -1) {
                None
            } else {
                x.checked_div(y)
            }
        },
        BinOp::RemS => {
            if y == 0 || (x == min && y == -1) {
                None
            } else {
                x.checked_rem(y)
            }
        },
        BinOp::Eq => Some(if a == b { 1 } else { 0 }),
        BinOp::Ne => Some(if a != b { 1 } else { 0 }),
        BinOp::RawAnd => Some(a & b),
        BinOp::RawOr => Some(a | b),
        BinOp::RawSub => a.checked_sub(b),
    }
}

/// The instruction that computes `op`.
pub fn binop_opcode_exec(op: BinOp) -> (r: u8)
    ensures
        r == binop_opcode(op),
{
    match op {
        BinOp::Add => ADD,
        BinOp::Sub | BinOp::RawSub => SUB,
        BinOp::Mul => MUL,
        BinOp::And | BinOp::RawAnd => AND,
        BinOp::Or | BinOp::RawOr => OR,
        BinOp::Xor => XOR,
        BinOp::Shl => SHL,
        BinOp::DivS => DIV,
        BinOp::RemS => MOD,
        BinOp::Eq => EQUAL,
        BinOp::Ne => NOTEQUAL,
    }
}

/// Appends the instruction of `op` and describes its result.
pub fn emit_binary_op(
    script: &mut Vec<u8>,
    op: BinOp,
    bits: u32,
    lhs: StackValue,
    rhs: StackValue,
) -> (r: StackValue)
    requires
        valid_width(bits),
    ensures
        final(script)@ == old(script)@.push(binop_opcode(op)),
        r.const_value == fold_values(op, bits, lhs, rhs),
        r.bytecode_start is None,
        keeps_prefix(old(script)@, final(script)@, old(script)@.len() as int),
{
    script.push(binop_opcode_exec(op));
    proof {
        assert(script@.subrange(0, old(script)@.len() as int) =~= old(script)@.subrange(
            0,
            old(script)@.len() as int,
        ));
    }
    let const_value = match (lhs.const_value, rhs.const_value) {
        (Some(a), Some(b)) => fold_binary_exec(op, bits, a, b),
        _ => None,
    };
    StackValue { const_value, bytecode_start: None }
}

/// `script` cut back to its first `len` bytes, as `Vec::truncate` does.
pub open spec fn truncated(script: Seq<u8>, len: int) -> Seq<u8> {
    if len <= script.len() {
        script.subrange(0, len)
    } else {
        script
    }
}

/// Cutting a script back to `len` bytes keeps the prefixes up to `len`.
pub proof fn lemma_keeps_prefix_truncated(script: Seq<u8>, len: int, n: int)
    requires
        0 <= n <= script.len(),
        n <= len,
    ensures
        keeps_prefix(script, truncated(script, len), n),
        n <= truncated(script, len).len(),
{
    if len <= script.len() {
        lemma_keeps_prefix_cut(script, len, n);
    } else {
        assert(script.subrange(0, n) =~= script.subrange(0, n));
    }
}

/// `i32.eqz` and `i64.eqz`.
///
/// A constant pushed by the instruction at `bytecode_start` is replaced by the constant result;
/// otherwise `PUSH0 EQUAL` compares with zero at run time.
pub fn emit_eqz(script: &mut Vec<u8>, value: StackValue) -> (r: StackValue)
    ensures
        match (value.const_value, value.bytecode_start) {
            (Some(c), Some(start)) => {
                let result: i128 = if c == 0 { 1 } else { 0 };
                &&& final(script)@ == truncated(old(script)@, start as int) + push_int_bytes(result as int)
                &&& r.const_value == Some(result)
                &&& r.bytecode_start == Some(truncated(old(script)@, start as int).len() as usize)
            },
            _ => {
                &&& final(script)@ == old(script)@ + seq![PUSH0, EQUAL]
                &&& r.const_value is None
                &&& r.bytecode_start is None
            },
        },
        r.bytecode_start is None ==> keeps_prefix(
            old(script)@,
            final(script)@,
            old(script)@.len() as int,
        ),
        r.bytecode_start is Some ==> keeps_prefix(
            old(script)@,
            final(script)@,
            r.bytecode_start->0 as int,
        ) && (r.bytecode_start->0 == old(script)@.len() || r.bytecode_start == value.bytecode_start),
{
    match (value.const_value, value.bytecode_start) {
        (Some(constant), Some(start)) => {
            script.truncate(start);
            let ghost cut = script@;
            let result: i128 = if constant == 0 { 1 } else { 0 };
            let r = emit_push_int(script, result);
            proof {
                assert(cut =~= truncated(old(script)@, start as int));
                assert(script@.subrange(0, cut.len() as int) =~= old(script)@.subrange(
                    0,
                    cut.len() as int,
                ));
            }
            r
        },
        _ => {
            script.push(PUSH0);
            script.push(EQUAL);
            proof {
                assert(final(script)@ =~= old(script)@ + seq![PUSH0, EQUAL]);
                assert(script@.subrange(0, old(script)@.len() as int) =~= old(script)@.subrange(
                    0,
                    old(script)@.len() as int,
                ));
            }
            StackValue::unknown()
        },
    }
}

/// The instructions that reduce a shift amount on top of the stack modulo `bits`.
pub open spec fn mask_shift_bytes(bits: u32) -> Seq<u8> {
    if bits == 0 {
        Seq::empty()
    } else {
        push_int_bytes(bits - 1) + seq![AND]
    }
}

/// Reduces the shift amount on top of the stack modulo `bits`.
pub fn mask_shift_amount(script: &mut Vec<u8>, bits: u32)
    ensures
        final(script)@ == old(script)@ + mask_shift_bytes(bits),
{
    if bits == 0 {
        proof {
            assert(final(script)@ =~= old(script)@ + mask_shift_bytes(bits));
        }
        return ;
    }
    let mask = (bits - 1) as i128;
    let _ = emit_push_int(script, mask);
    script.push(AND);
    proof {
        assert(final(script)@ =~= old(script)@ + mask_shift_bytes(bits));
    }
}

/// The two right shifts.
#[derive(Debug, Clone, Copy, PartialEq, Eq, Structural)]
pub enum ShiftKind {
    /// `shr_s`: the sign is kept.
    Arithmetic,
    /// `shr_u`: zeros come in.
    Logical,
}

/// The instructions of a right shift of width `bits`.
pub open spec fn shift_right_bytes(bits: u32, kind: ShiftKind) -> Seq<u8> {
    mask_shift_bytes(bits) + match kind {
        ShiftKind::Arithmetic => seq![SHR],
        ShiftKind::Logical => seq![SWAP] + push_int_bytes(modulus(bits) - 1) + seq![AND, SWAP, SHR],
    }
}

/// The constant result of a right shift of `a` by `b`.
pub open spec fn fold_shift_right(a: i128, b: i128, bits: u32, kind: ShiftKind) -> int {
    let s = (b as int % bits as int) as nat;
    match kind {
        ShiftKind::Arithmetic => wrap(a as int, bits) / pow2i(s),
        ShiftKind::Logical => unsigned_of(a as int, bits) / pow2i(s),
    }
}

/// `shr_s` and `shr_u` at width `bits`.
pub fn emit_shift_right(
    script: &mut Vec<u8>,
    lhs: StackValue,
    rhs: StackValue,
    bits: u32,
    kind: ShiftKind,
) -> (r: StackValue)
    requires
        valid_width(bits),
    ensures
        final(script)@ == old(script)@ + shift_right_bytes(bits, kind),
        r.const_value == match (lhs.const_value, rhs.const_value) {
            (Some(a), Some(b)) => Some(fold_shift_right(a, b, bits, kind) as i128),
            _ => None,
        },
        r.bytecode_start is None,
        keeps_prefix(old(script)@, final(script)@, old(script)@.len() as int),
{
    mask_shift_amount(script, bits);
    let ghost mid = script@;
    match kind {
        ShiftKind::Arithmetic => {
            script.push(SHR);
        },
        ShiftKind::Logical => {
            script.push(SWAP);
            let mask: i128 = if bits == 32 { 0xFFFF_FFFF } else { 0xFFFF_FFFF_FFFF_FFFF };
            let _ = emit_push_int(script, mask);
            script.push(AND);
            script.push(SWAP);
            script.push(SHR);
        },
    }
    proof {
        assert(final(script)@ =~= old(script)@ + shift_right_bytes(bits, kind));
    }
    proof {
        assert(script@.subrange(0, old(script)@.len() as int) =~= old(script)@.subrange(
            0,
            old(script)@.len() as int,
        ));
    }
    let const_value = match (lhs.const_value, rhs.const_value) {
        (Some(a), Some(b)) => {
            let s = match b.checked_rem_euclid(bits as i128) {
                Some(s) => s,
                None => 0,
            };
            let p = pow2_exec(s as u32);
            proof {
                lemma_pow2i_monotonic(s as nat, 63);
                lemma_pow2i_values();
            }
            let v = match kind {
                ShiftKind::Arithmetic => wrap_to(a, bits),
                ShiftKind::Logical => unsigned_to(a, bits),
            };
            assert(-0x1_0000_0000_0000_0000 <= v as int / p as int <= 0x1_0000_0000_0000_0000)
                by (nonlinear_arith)
                requires
                    -0x1_0000_0000_0000_0000 <= v <= 0x1_0000_0000_0000_0000,
                    p >= 1,
            ;
            match v.checked_div_euclid(p) {
                Some(q) => Some(q),
                None => None,
            }
        },
        _ => None,
    };
    StackValue { const_value, bytecode_start: None }
}

/// The four ordering comparisons.
#[derive(Debug, Clone, Copy, PartialEq, Eq, Structural)]
pub enum CompareOp {
    Lt,
    Le,
    Gt,
    Ge,
}

/// The instruction byte of a comparison.
pub open spec fn compare_opcode(op: CompareOp) -> u8 {
    match op {
        CompareOp::Lt => LT,
        CompareOp::Le => LE,
        CompareOp::Gt => GT,
        CompareOp::Ge => GE,
    }
}

/// Whether `lhs op rhs` holds.
pub open spec fn compare_holds(op: CompareOp, lhs: int, rhs: int) -> bool {
    match op {
        CompareOp::Lt => lhs < rhs,
        CompareOp::Le => lhs <= rhs,
        CompareOp::Gt => lhs > rhs,
        CompareOp::Ge => lhs >= rhs,
    }
}

impl CompareOp {
    /// The NeoVM mnemonic of the comparison.
    pub fn opcode_name(self) -> (r: &'static str)
        ensures
            r@ == match self {
                CompareOp::Lt => "LT"@,
                CompareOp::Le => "LE"@,
                CompareOp::Gt => "GT"@,
                CompareOp::Ge => "GE"@,
            },
    {
        match self {
            CompareOp::Lt => "LT",
            CompareOp::Le => "LE",
            CompareOp::Gt => "GT",
            CompareOp::Ge => "GE",
        }
    }

    /// The instruction byte of the comparison.
    pub fn opcode(self) -> (r: u8)
        ensures
            r == compare_opcode(self),
    {
        match self {
            CompareOp::Lt => LT,
            CompareOp::Le => LE,
            CompareOp::Gt => GT,
            CompareOp::Ge => GE,
        }
    }

    /// Compares two values.
    pub fn evaluate_order(self, lhs: i128, rhs: i128) -> (r: bool)
        ensures
            r == compare_holds(self, lhs as int, rhs as int),
    {
        match self {
            CompareOp::Lt => lhs < rhs,
            CompareOp::Le => lhs <= rhs,
            CompareOp::Gt => lhs > rhs,
            CompareOp::Ge => lhs >= rhs,
        }
    }

    /// Compares two values as `bits`-wide signed integers.
    pub fn evaluate_signed(self, lhs: i128, rhs: i128, bits: u32) -> (r: bool)
        requires
            valid_width(bits),
        ensures
            r == compare_holds(self, wrap(lhs as int, bits), wrap(rhs as int, bits)),
    {
        self.evaluate_order(wrap_to(lhs, bits), wrap_to(rhs, bits))
    }

    /// Compares two unsigned values.
    pub fn evaluate_unsigned(self, lhs: u128, rhs: u128) -> (r: bool)
        ensures
            r == compare_holds(self, lhs as int, rhs as int),
    {
        match self {
            CompareOp::Lt => lhs < rhs,
            CompareOp::Le => lhs <= rhs,
            CompareOp::Gt => lhs > rhs,
            CompareOp::Ge => lhs >= rhs,
        }
    }
}

/// The constant result of a comparison, when both operands are constants.
pub open spec fn fold_compare(
    op: CompareOp,
    bits: u32,
    signed: bool,
    lhs: StackValue,
    rhs: StackValue,
) -> Option<i128> {
    match (lhs.const_value, rhs.const_value) {
        (Some(a), Some(b)) => {
            let holds = if signed {
                compare_holds(op, wrap(a as int, bits), wrap(b as int, bits))
            } else {
                compare_holds(op, unsigned_of(a as int, bits), unsigned_of(b as int, bits))
            };
            Some(if holds { 1 } else { 0 })
        },
        _ => None,
    }
}

/// A signed comparison at width `bits`.
pub fn emit_signed_compare(
    script: &mut Vec<u8>,
    lhs: StackValue,
    rhs: StackValue,
    bits: u32,
    kind: CompareOp,
) -> (r: StackValue)
    requires
        valid_width(bits),
    ensures
        final(script)@ == old(script)@.push(compare_opcode(kind)),
        r.const_value == fold_compare(kind, bits, true, lhs, rhs),
        r.bytecode_start is None,
        keeps_prefix(old(script)@, final(script)@, old(script)@.len() as int),
{
    script.push(kind.opcode());
    proof {
        assert(script@.subrange(0, old(script)@.len() as int) =~= old(script)@.subrange(
            0,
            old(script)@.len() as int,
        ));
    }
    let const_value = match (lhs.const_value, rhs.const_value) {
        (Some(a), Some(b)) => Some(if kind.evaluate_signed(a, b, bits) { 1i128 } else { 0i128 }),
        _ => None,
    };
    StackValue { const_value, bytecode_start: None }
}

/// The instructions that reduce both operands of an unsigned operation to `bits` bits.
pub open spec fn mask_operands_bytes(bits: u32) -> Seq<u8> {
    push_int_bytes(modulus(bits) - 1) + seq![AND, SWAP] + push_int_bytes(modulus(bits) - 1) + seq![
        AND,
        SWAP,
    ]
}

/// Reduces both operands on top of the stack to their unsigned `bits`-bit values.
pub fn mask_unsigned_operands(script: &mut Vec<u8>, bits: u32)
    requires
        valid_width(bits),
    ensures
        final(script)@ == old(script)@ + mask_operands_bytes(bits),
{
    let mask_value: i128 = if bits == 32 { 0xFFFF_FFFF } else { 0xFFFF_FFFF_FFFF_FFFF };
    let _ = emit_push_int(script, mask_value);
    script.push(AND);
    script.push(SWAP);
    let _ = emit_push_int(script, mask_value);
    script.push(AND);
    script.push(SWAP);
    proof {
        assert(final(script)@ =~= old(script)@ + mask_operands_bytes(bits));
    }
}

/// An unsigned comparison at width `bits`.
pub fn emit_unsigned_compare(
    script: &mut Vec<u8>,
    lhs: StackValue,
    rhs: StackValue,
    bits: u32,
    kind: CompareOp,
) -> (r: StackValue)
    requires
        valid_width(bits),
    ensures
        final(script)@ == old(script)@ + mask_operands_bytes(bits) + seq![compare_opcode(kind)],
        r.const_value == fold_compare(kind, bits, false, lhs, rhs),
        r.bytecode_start is None,
        keeps_prefix(old(script)@, final(script)@, old(script)@.len() as int),
{
    mask_unsigned_operands(script, bits);
    script.push(kind.opcode());
    proof {
        assert(final(script)@ =~= old(script)@ + mask_operands_bytes(bits) + seq![
            compare_opcode(kind),
        ]);
    }
    proof {
        assert(script@.subrange(0, old(script)@.len() as int) =~= old(script)@.subrange(
            0,
            old(script)@.len() as int,
        ));
    }
    let const_value = match (lhs.const_value, rhs.const_value) {
        (Some(a), Some(b)) => {
            let x = unsigned_to(a, bits) as u128;
            let y = unsigned_to(b, bits) as u128;
            Some(if kind.evaluate_unsigned(x, y) { 1i128 } else { 0i128 })
        },
        _ => None,
    };
    StackValue { const_value, bytecode_start: None }
}

/// Unsigned division and remainder.
#[derive(Debug, Clone, Copy, PartialEq, Eq, Structural)]
pub enum UnsignedOp {
    Div,
    Rem,
}

/// The constant result of an unsigned division or remainder.
pub open spec fn fold_unsigned(op: UnsignedOp, a: i128, b: i128, bits: u32) -> Option<int> {
    let dividend = unsigned_of(a as int, bits);
    let divisor = unsigned_of(b as int, bits);
    if divisor == 0 {
        None
    } else {
        match op {
            UnsignedOp::Div => Some(dividend / divisor),
            UnsignedOp::Rem => Some(dividend % divisor),
        }
    }
}

/// `div_u` and `rem_u` at width `bits`.
pub fn emit_unsigned_binary_op(
    script: &mut Vec<u8>,
    op: UnsignedOp,
    lhs: StackValue,
    rhs: StackValue,
    bits: u32,
) -> (r: StackValue)
    requires
        valid_width(bits),
    ensures
        final(script)@ == old(script)@ + mask_operands_bytes(bits) + seq![
            match op {
                UnsignedOp::Div => DIV,
                UnsignedOp::Rem => MOD,
            },
        ],
        r.const_value == match (lhs.const_value, rhs.const_value) {
            (Some(a), Some(b)) => as_const(fold_unsigned(op, a, b, bits)),
            _ => None,
        },
        r.bytecode_start is None,
        keeps_prefix(old(script)@, final(script)@, old(script)@.len() as int),
{
    mask_unsigned_operands(script, bits);
    let opcode = match op {
        UnsignedOp::Div => DIV,
        UnsignedOp::Rem => MOD,
    };
    script.push(opcode);
    proof {
        assert(final(script)@ =~= old(script)@ + mask_operands_bytes(bits) + seq![opcode]);
    }
    proof {
        assert(script@.subrange(0, old(script)@.len() as int) =~= old(script)@.subrange(
            0,
            old(script)@.len() as int,
        ));
    }
    let const_value = match (lhs.const_value, rhs.const_value) {
        (Some(a), Some(b)) => {
            let dividend = unsigned_to(a, bits);
            let divisor = unsigned_to(b, bits);
            if divisor == 0 {
                None
            } else {
                match op {
                    UnsignedOp::Div => dividend.checked_div_euclid(divisor),
                    UnsignedOp::Rem => dividend.checked_rem_euclid(divisor),
                }
            }
        },
        _ => None,
    };
    StackValue { const_value, bytecode_start: None }
}


/// Pops the top operand.
pub fn pop_value(stack: &mut Vec<StackValue>) -> (r: Result<StackValue, TranslateError>)
    ensures
        old(stack)@.len() > 0 ==> r == Ok::<StackValue, TranslateError>(old(stack)@.last())
            && final(stack)@ == old(stack)@.drop_last(),
        old(stack)@.len() == 0 ==> r == Err::<StackValue, TranslateError>(
            TranslateError::StackUnderflow,
        ) && final(stack)@ == old(stack)@,
{
    match stack.pop() {
        Some(v) => Ok(v),
        None => Err(TranslateError::StackUnderflow),
    }
}

/// A described value that the translator cannot rewind.
pub open spec fn picked(c: Option<i128>) -> StackValue {
    StackValue { const_value: c, bytecode_start: None }
}

/// Copies the operand `index` places below the top to the top (`PICK`).
pub fn stack_pick(script: &mut Vec<u8>, stack: &mut Vec<StackValue>, index: usize) -> (r: Result<
    (),
    TranslateError,
>)
    ensures
        final(script)@ == old(script)@ + push_int_bytes(index as int) + seq![PICK],
        r is Ok <==> index < old(stack)@.len(),
        r is Ok ==> final(stack)@ == old(stack)@.push(
            picked(old(stack)@[old(stack)@.len() - 1 - index].const_value),
        ),
        r is Err ==> r == Err::<(), TranslateError>(TranslateError::PickOutOfRange { index })
            && final(stack)@ == old(stack)@.push(
            StackValue {
                const_value: Some(index as i128),
                bytecode_start: Some(old(script)@.len() as usize),
            },
        ),
{
    let idx_sv = emit_push_int(script, index as i128);
    stack.push(idx_sv);
    script.push(PICK);
    proof {
        assert(final(script)@ =~= old(script)@ + push_int_bytes(index as int) + seq![PICK]);
    }
    let len = stack.len();
    if index >= len - 1 {
        return Err(TranslateError::PickOutOfRange { index });
    }
    let value = stack[len - 2 - index].const_value;
    stack.pop();
    stack.push(StackValue { const_value: value, bytecode_start: None });
    Ok(())
}

/// Exchanges the two top operands (`SWAP`).
pub fn stack_swap(script: &mut Vec<u8>, stack: &mut Vec<StackValue>) -> (r: Result<
    (),
    TranslateError,
>)
    ensures
        r is Ok <==> old(stack)@.len() >= 2,
        r is Ok ==> final(script)@ == old(script)@.push(SWAP) && final(stack)@ == old(stack)@.subrange(0, old(stack)@.len() - 2).push(old(stack)@.last()).push(
            old(stack)@[old(stack)@.len() - 2],
        ),
        r is Err ==> r == Err::<(), TranslateError>(TranslateError::StackUnderflow) && final(script)@ == old(script)@ && final(stack)@ == old(stack)@,
{
    if stack.len() < 2 {
        return Err(TranslateError::StackUnderflow);
    }
    script.push(SWAP);
    let top = stack.pop().unwrap();
    let below = stack.pop().unwrap();
    stack.push(top);
    stack.push(below);
    Ok(())
}

/// Discards the top operand (`DROP`).
pub fn stack_drop(script: &mut Vec<u8>, stack: &mut Vec<StackValue>) -> (r: Result<
    (),
    TranslateError,
>)
    ensures
        r is Ok <==> old(stack)@.len() >= 1,
        r is Ok ==> final(script)@ == old(script)@.push(DROP) && final(stack)@ == old(stack)@.drop_last(),
        r is Err ==> r == Err::<(), TranslateError>(TranslateError::StackUnderflow) && final(script)@ == old(script)@ && final(stack)@ == old(stack)@,
{
    if stack.len() == 0 {
        return Err(TranslateError::StackUnderflow);
    }
    script.push(DROP);
    stack.pop();
    Ok(())
}

/// The constant result of `op`, given optional constant operands.
pub open spec fn bin_const(op: BinOp, bits: u32, a: Option<i128>, b: Option<i128>) -> Option<i128> {
    fold_values(op, bits, picked(a), picked(b))
}

/// The constant result of a right shift, given optional constant operands.
pub open spec fn shr_const(a: Option<i128>, b: Option<i128>, bits: u32, kind: ShiftKind) -> Option<
    i128,
> {
    match (a, b) {
        (Some(x), Some(y)) => Some(fold_shift_right(x, y, bits, kind) as i128),
        _ => None,
    }
}

/// Applies `op` to the two top operands.
pub fn apply_binary(script: &mut Vec<u8>, stack: &mut Vec<StackValue>, op: BinOp, bits: u32) -> (r:
    Result<StackValue, TranslateError>)
    requires
        valid_width(bits),
    ensures
        r is Ok <==> old(stack)@.len() >= 2,
        r matches Ok(v) ==> {
            let n = old(stack)@.len();
            &&& final(script)@ == old(script)@.push(binop_opcode(op))
            &&& v.const_value == fold_values(op, bits, old(stack)@[n - 2], old(stack)@[n - 1])
            &&& v.bytecode_start is None
            &&& final(stack)@ == old(stack)@.subrange(0, n - 2).push(v)
        },
        r is Err ==> r == Err::<StackValue, TranslateError>(TranslateError::StackUnderflow) && final(script)@ == old(script)@,
{
    let rhs = pop_value(stack)?;
    let lhs = pop_value(stack)?;
    let result = emit_binary_op(script, op, bits, lhs, rhs);
    stack.push(result);
    Ok(result)
}

/// Applies a right shift to the two top operands.
pub fn apply_shift_right(
    script: &mut Vec<u8>,
    stack: &mut Vec<StackValue>,
    bits: u32,
    kind: ShiftKind,
) -> (r: Result<StackValue, TranslateError>)
    requires
        valid_width(bits),
    ensures
        r is Ok <==> old(stack)@.len() >= 2,
        r matches Ok(v) ==> {
            let n = old(stack)@.len();
            &&& final(script)@ == old(script)@ + shift_right_bytes(bits, kind)
            &&& v.const_value == shr_const(
                old(stack)@[n - 2].const_value,
                old(stack)@[n - 1].const_value,
                bits,
                kind,
            )
            &&& v.bytecode_start is None
            &&& final(stack)@ == old(stack)@.subrange(0, n - 2).push(v)
        },
        r is Err ==> r == Err::<StackValue, TranslateError>(TranslateError::StackUnderflow) && final(script)@ == old(script)@,
{
    let rhs = pop_value(stack)?;
    let lhs = pop_value(stack)?;
    let result = emit_shift_right(script, lhs, rhs, bits, kind);
    stack.push(result);
    Ok(result)
}

/// The value of `v` rotated by `s` bits, at width `bits`.
pub open spec fn rotate_fold(v: i128, s: i128, bits: u32, left: bool) -> int {
    let u = unsigned_of(v as int, bits);
    let k = s as int % bits as int;
    let amt = if left {
        k
    } else {
        (bits - k) % (bits as int)
    };
    wrap((u * pow2i(amt as nat)) % modulus(bits) + u / pow2i((bits - amt) as nat), bits)
}

/// The instructions that reduce the shift amount and compute the first half of a rotation.
pub open spec fn rotate_first_bytes(bits: u32, left: bool) -> Seq<u8> {
    push_int_bytes(bits - 1) + seq![AND] + push_int_bytes(1) + seq![PICK] + push_int_bytes(1)
        + seq![PICK] + if left {
        seq![SHL]
    } else {
        shift_right_bytes(bits, ShiftKind::Logical)
    }
}

/// The instructions that compute the second half of a rotation.
pub open spec fn rotate_second_bytes(bits: u32, left: bool) -> Seq<u8> {
    push_int_bytes(2) + seq![PICK] + push_int_bytes(2) + seq![PICK] + push_int_bytes(bits as int)
        + seq![SWAP, SUB] + if left {
        shift_right_bytes(bits, ShiftKind::Logical)
    } else {
        seq![SHL]
    }
}

/// The instructions of a run-time rotation.
pub open spec fn rotate_dynamic_bytes(bits: u32, left: bool) -> Seq<u8> {
    rotate_first_bytes(bits, left) + rotate_second_bytes(bits, left) + seq![
        OR,
        SWAP,
        DROP,
        SWAP,
        DROP,
    ]
}

/// The reduced shift amount of a run-time rotation.
pub open spec fn rotate_mask_const(s: Option<i128>, bits: u32) -> Option<i128> {
    bin_const(BinOp::RawAnd, bits, s, Some((bits - 1) as i128))
}

/// The first half of a run-time rotation: `v << m` for a left rotation, `v >>> m` for a right one.
pub open spec fn rotate_first_const(v: Option<i128>, m: Option<i128>, bits: u32, left: bool) -> Option<
    i128,
> {
    if left {
        bin_const(BinOp::Shl, bits, v, m)
    } else {
        shr_const(v, m, bits, ShiftKind::Logical)
    }
}

/// The second half of a run-time rotation, shifting the other way by `bits - m`.
pub open spec fn rotate_second_const(v: Option<i128>, m: Option<i128>, bits: u32, left: bool) -> Option<
    i128,
> {
    let d = bin_const(BinOp::RawSub, bits, Some(bits as i128), m);
    if left {
        shr_const(v, d, bits, ShiftKind::Logical)
    } else {
        bin_const(BinOp::Shl, bits, v, d)
    }
}

/// The constant that a run-time rotation is described by: the OR of its two halves, each
/// folded as it is emitted.
pub open spec fn rotate_dynamic_const(
    v: Option<i128>,
    s: Option<i128>,
    bits: u32,
    left: bool,
) -> Option<i128> {
    let m = rotate_mask_const(s, bits);
    bin_const(
        BinOp::RawOr,
        bits,
        rotate_first_const(v, m, bits, left),
        rotate_second_const(v, m, bits, left),
    )
}

/// From `[value, shift]`, leaves `[value, m, first half]`.
fn rotate_first_half(script: &mut Vec<u8>, stack: &mut Vec<StackValue>, bits: u32, left: bool)
    requires
        valid_width(bits),
        old(stack)@.len() == 2,
    ensures
        final(script)@ == old(script)@ + rotate_first_bytes(bits, left),
        final(stack)@.len() == 3,
        final(stack)@[0] == old(stack)@[0],
        final(stack)@[1].const_value == rotate_mask_const(old(stack)@[1].const_value, bits),
        final(stack)@[2].const_value == rotate_first_const(
            old(stack)@[0].const_value,
            rotate_mask_const(old(stack)@[1].const_value, bits),
            bits,
            left,
        ),
{
    let ghost s0 = script@;
    let mask_sv = emit_push_int(script, (bits - 1) as i128);
    stack.push(mask_sv);
    let _ = apply_binary(script, stack, BinOp::RawAnd, bits);
    let _ = stack_pick(script, stack, 1);
    let _ = stack_pick(script, stack, 1);
    let ghost s2 = script@;
    if left {
        let _ = apply_binary(script, stack, BinOp::Shl, bits);
        assert(script@ =~= s2 + seq![SHL]);
    } else {
        let _ = apply_shift_right(script, stack, bits, ShiftKind::Logical);
    }
    assert(script@ =~= s0 + rotate_first_bytes(bits, left));
}

/// From `[value, m, first half]`, leaves `[value, m, first half, second half]`.
fn rotate_second_half(script: &mut Vec<u8>, stack: &mut Vec<StackValue>, bits: u32, left: bool)
    requires
        valid_width(bits),
        old(stack)@.len() == 3,
    ensures
        final(script)@ == old(script)@ + rotate_second_bytes(bits, left),
        final(stack)@.len() == 4,
        final(stack)@.subrange(0, 3) == old(stack)@,
        final(stack)@[3].const_value == rotate_second_const(
            old(stack)@[0].const_value,
            old(stack)@[1].const_value,
            bits,
            left,
        ),
{
    let ghost s0 = script@;
    let ghost st0 = stack@;
    let _ = stack_pick(script, stack, 2);
    let _ = stack_pick(script, stack, 2);
    let bits_sv = emit_push_int(script, bits as i128);
    stack.push(bits_sv);
    let _ = stack_swap(script, stack);
    let _ = apply_binary(script, stack, BinOp::RawSub, bits);
    let ghost s5 = script@;
    assert(s5 =~= s0 + push_int_bytes(2) + seq![PICK] + push_int_bytes(2) + seq![PICK]
        + push_int_bytes(bits as int) + seq![SWAP, SUB]);
    if left {
        let _ = apply_shift_right(script, stack, bits, ShiftKind::Logical);
    } else {
        let _ = apply_binary(script, stack, BinOp::Shl, bits);
        assert(script@ =~= s5 + seq![SHL]);
    }
    assert(script@ =~= s0 + rotate_second_bytes(bits, left));
    assert(stack@.subrange(0, 3) =~= st0);
}

/// Rotates at run time: `value` and `shift` are on the stack.
pub fn emit_rotate_dynamic(
    script: &mut Vec<u8>,
    value: StackValue,
    shift: StackValue,
    bits: u32,
    left: bool,
) -> (r: StackValue)
    requires
        valid_width(bits),
    ensures
        final(script)@ == old(script)@ + rotate_dynamic_bytes(bits, left),
        r.const_value == rotate_dynamic_const(value.const_value, shift.const_value, bits, left),
        r.bytecode_start is None,
{
    let ghost s0 = script@;
    let mut stack: Vec<StackValue> = Vec::new();
    stack.push(value);
    stack.push(shift);
    rotate_first_half(script, &mut stack, bits, left);
    rotate_second_half(script, &mut stack, bits, left);
    let ghost s2 = script@;
    let result = match apply_binary(script, &mut stack, BinOp::RawOr, bits) {
        Ok(v) => v,
        Err(_) => StackValue::unknown(),
    };
    let _ = stack_swap(script, &mut stack);
    let _ = stack_drop(script, &mut stack);
    let _ = stack_swap(script, &mut stack);
    let _ = stack_drop(script, &mut stack);
    assert(script@ =~= s2 + seq![OR, SWAP, DROP, SWAP, DROP]);
    assert(script@ =~= s0 + rotate_dynamic_bytes(bits, left));
    result
}

/// `rotl` and `rotr` at width `bits`.
///
/// Two constants pushed by rewindable instructions are replaced by the rotated constant;
/// otherwise the rotation is computed at run time.
pub fn emit_rotate(
    script: &mut Vec<u8>,
    value: StackValue,
    shift: StackValue,
    bits: u32,
    left: bool,
) -> (r: StackValue)
    requires
        valid_width(bits),
    ensures
        match (value.const_value, shift.const_value, value.bytecode_start, shift.bytecode_start) {
            (Some(v), Some(s), Some(vs), Some(ss)) => {
                let start = if vs <= ss { vs } else { ss };
                let rotated = rotate_fold(v, s, bits, left);
                &&& final(script)@ == truncated(old(script)@, start as int) + push_int_bytes(rotated)
                &&& r.const_value == Some(rotated as i128)
                &&& r.bytecode_start == Some(truncated(old(script)@, start as int).len() as usize)
            },
            _ => {
                &&& final(script)@ == old(script)@ + rotate_dynamic_bytes(bits, left)
                &&& r.const_value == rotate_dynamic_const(
                    value.const_value,
                    shift.const_value,
                    bits,
                    left,
                )
                &&& r.bytecode_start is None
            },
        },
        r.bytecode_start is None ==> keeps_prefix(
            old(script)@,
            final(script)@,
            old(script)@.len() as int,
        ),
        r.bytecode_start is Some ==> keeps_prefix(
            old(script)@,
            final(script)@,
            r.bytecode_start->0 as int,
        ) && (r.bytecode_start->0 == old(script)@.len() || r.bytecode_start == value.bytecode_start
            || r.bytecode_start == shift.bytecode_start),
{
    match (value.const_value, shift.const_value, value.bytecode_start, shift.bytecode_start) {
        (Some(v), Some(s), Some(value_start), Some(shift_start)) => {
            let u = unsigned_to(v, bits);
            let k = match s.checked_rem_euclid(bits as i128) {
                Some(k) => k,
                None => 0,
            };
            let amt: i128 = if left {
                k
            } else {
                match (bits as i128 - k).checked_rem_euclid(bits as i128) {
                    Some(a) => a,
                    None => 0,
                }
            };
            let p = pow2_exec(amt as u32);
            let q = pow2_exec((bits as i128 - amt) as u32);
            proof {
                lemma_pow2i_monotonic(amt as nat, 63);
                lemma_pow2i_monotonic((bits - amt) as nat, 64);
                lemma_pow2i_values();
            }
            assert(0 <= u * p < 0x8000_0000_0000_0000_0000_0000_0000_0000) by (nonlinear_arith)
                requires
                    0 <= u < 0x1_0000_0000_0000_0000,
                    1 <= p <= 0x8000_0000_0000_0000,
            ;
            let m: i128 = if bits == 32 { 0x1_0000_0000 } else { 0x1_0000_0000_0000_0000 };
            let low = match (u * p).checked_rem_euclid(m) {
                Some(x) => x,
                None => 0,
            };
            assert(0 <= u as int / q as int <= u) by (nonlinear_arith)
                requires
                    0 <= u,
                    q >= 1,
            ;
            let high = match u.checked_div_euclid(q) {
                Some(x) => x,
                None => 0,
            };
            let rotated = wrap_to(low + high, bits);
            let start = if value_start <= shift_start { value_start } else { shift_start };
            script.truncate(start);
            let ghost cut = script@;
            let r = emit_push_int(script, rotated);
            proof {
                assert(cut =~= truncated(old(script)@, start as int));
                assert(script@.subrange(0, cut.len() as int) =~= old(script)@.subrange(
                    0,
                    cut.len() as int,
                ));
            }
            r
        },
        _ => {
            let r = emit_rotate_dynamic(script, value, shift, bits, left);
            proof {
                assert(script@.subrange(0, old(script)@.len() as int) =~= old(script)@.subrange(
                    0,
                    old(script)@.len() as int,
                ));
            }
            r
        },
    }
}

} // verus!
