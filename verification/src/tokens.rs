//! Inference of the method tokens a NeoVM script needs.
//!
//! The scanner walks a script once, tracking the literals that each instruction leaves on the
//! evaluation stack. At every SYSCALL it inspects the tracked values: a `System.Contract.Call`
//! whose contract hash, method name, call flags and argument array are all literals becomes a
//! method token, and any other known interop service becomes a token naming that service.

use vstd::prelude::*;
use vstd::slice::{slice_subrange, slice_to_vec};
use vstd::string::StringSliceAdditionalSpecFns;
use vstd::utf8::{decode_utf8, encode_utf8, valid_utf8};

use crate::emit::{push_data_bytes, push_int_bytes};
use crate::imports::syscall_bytes;
use crate::le::{
    fits_signed, le_encode, le_encode_signed, le_signed, le_unsigned, lemma_le_roundtrip,
    lemma_le_signed_roundtrip, lemma_le_unsigned_bound, lemma_pow256_values, pow256,
};
use crate::le::{read_le_signed, read_le_unsigned};
use crate::opcodes::{
    operand_prefix, operand_size, spec_operand_prefix, spec_operand_size, DROP, NEWARRAY,
    NEWARRAY0, PACK, PUSH0, PUSH16, PUSHDATA1, PUSHDATA2, PUSHDATA4, PUSHINT128, PUSHINT16,
    PUSHINT32, PUSHINT64, PUSHINT8, PUSHM1, RET, SYSCALL,
};
use crate::syscalls::{lookup_by_hash, spec_lookup_by_hash};
use crate::text::{eq_ignore_case, str_eq_ignore_case};

verus! {

/// Length in bytes of a contract script hash.
pub const HASH160_LENGTH: usize = 20;

/// The longest method name that a method token may carry.
pub const MAX_TOKEN_METHOD_LEN: usize = 32;

/// What the scanner knows about one evaluation-stack item.
#[derive(Debug, Clone)]
pub enum Literal {
    /// An integer pushed by a literal instruction.
    Integer(i128),
    /// A byte string pushed by a PUSHDATA instruction.
    Bytes(Vec<u8>),
    /// An array of the given length built by NEWARRAY0, NEWARRAY or PACK.
    Array(usize),
    /// Anything else.
    Unknown,
}

/// The mathematical value of a tracked stack item.
pub enum LiteralView {
    Integer(int),
    Bytes(Seq<u8>),
    Array(nat),
    Unknown,
}

impl View for Literal {
    type V = LiteralView;

    open spec fn view(&self) -> LiteralView {
        match self {
            Literal::Integer(v) => LiteralView::Integer(*v as int),
            Literal::Bytes(b) => LiteralView::Bytes(b@),
            Literal::Array(n) => LiteralView::Array(*n as nat),
            Literal::Unknown => LiteralView::Unknown,
        }
    }
}

/// The tracked stack, item by item.
pub open spec fn lits(s: Seq<Literal>) -> Seq<LiteralView> {
    s.map_values(|l: Literal| l@)
}

/// What the caller of [`step`] has to do next.
#[derive(Debug, Clone, Copy, PartialEq, Eq, Structural)]
pub enum TokenScanEvent {
    /// Go on with the next instruction.
    Continue,
    /// A SYSCALL with this identifier was read.
    Syscall(u32),
    /// The script ends inside an instruction's operand.
    Stop,
}

/// The bytes of the instructions that the scanner interprets.
pub struct OpcodeBytes {
    pub pushint8: Option<u8>,
    pub pushint16: Option<u8>,
    pub pushint32: Option<u8>,
    pub pushint64: Option<u8>,
    pub pushint128: Option<u8>,
    pub pushm1: Option<u8>,
    pub push0: Option<u8>,
    pub pushdata1: Option<u8>,
    pub pushdata2: Option<u8>,
    pub pushdata4: Option<u8>,
    pub newarray0: Option<u8>,
    pub newarray: Option<u8>,
    pub pack: Option<u8>,
    pub drop_op: Option<u8>,
    pub syscall: Option<u8>,
    pub ret: Option<u8>,
}

impl OpcodeBytes {
    /// Every field holds the byte of the instruction it is named after.
    pub open spec fn canonical(&self) -> bool {
        &&& self.pushint8 == Some(PUSHINT8)
        &&& self.pushint16 == Some(PUSHINT16)
        &&& self.pushint32 == Some(PUSHINT32)
        &&& self.pushint64 == Some(PUSHINT64)
        &&& self.pushint128 == Some(PUSHINT128)
        &&& self.pushm1 == Some(PUSHM1)
        &&& self.push0 == Some(PUSH0)
        &&& self.pushdata1 == Some(PUSHDATA1)
        &&& self.pushdata2 == Some(PUSHDATA2)
        &&& self.pushdata4 == Some(PUSHDATA4)
        &&& self.newarray0 == Some(NEWARRAY0)
        &&& self.newarray == Some(NEWARRAY)
        &&& self.pack == Some(PACK)
        &&& self.drop_op == Some(DROP)
        &&& self.syscall == Some(SYSCALL)
        &&& self.ret == Some(RET)
    }

    /// Looks up the bytes of the interpreted instructions.
    pub fn collect() -> (r: OpcodeBytes)
        ensures
            r.canonical(),
    {
        OpcodeBytes {
            pushint8: Some(PUSHINT8),
            pushint16: Some(PUSHINT16),
            pushint32: Some(PUSHINT32),
            pushint64: Some(PUSHINT64),
            pushint128: Some(PUSHINT128),
            pushm1: Some(PUSHM1),
            push0: Some(PUSH0),
            pushdata1: Some(PUSHDATA1),
            pushdata2: Some(PUSHDATA2),
            pushdata4: Some(PUSHDATA4),
            newarray0: Some(NEWARRAY0),
            newarray: Some(NEWARRAY),
            pack: Some(PACK),
            drop_op: Some(DROP),
            syscall: Some(SYSCALL),
            ret: Some(RET),
        }
    }
}

/// Whether an optional instruction byte is `op`.
fn is_op(slot: Option<u8>, op: u8) -> (r: bool)
    ensures
        r == (slot == Some(op)),
{
    match slot {
        Some(b) => b == op,
        None => false,
    }
}

/// The scanner's state after one instruction.
pub struct StepOutcome {
    pub pc: int,
    pub stack: Seq<LiteralView>,
    pub event: TokenScanEvent,
}

pub open spec fn cont(pc: int, stack: Seq<LiteralView>) -> StepOutcome {
    StepOutcome { pc, stack, event: TokenScanEvent::Continue }
}

pub open spec fn stop(pc: int, stack: Seq<LiteralView>) -> StepOutcome {
    StepOutcome { pc, stack, event: TokenScanEvent::Stop }
}

/// PUSHINT with a `k`-byte operand at `pc`.
pub open spec fn push_int_step(script: Seq<u8>, pc: int, stack: Seq<LiteralView>, k: int) -> StepOutcome {
    if pc + k > script.len() {
        stop(pc, stack)
    } else {
        cont(pc + k, stack.push(LiteralView::Integer(le_signed(script.subrange(pc, pc + k)))))
    }
}

/// PUSHDATA with a `k`-byte length prefix at `pc`.
pub open spec fn push_data_step(script: Seq<u8>, pc: int, stack: Seq<LiteralView>, k: int) -> StepOutcome {
    if pc + k > script.len() {
        stop(pc, stack)
    } else {
        let len = le_unsigned(script.subrange(pc, pc + k)) as int;
        let start = pc + k;
        if start + len > script.len() {
            stop(start, stack)
        } else {
            cont(start + len, stack.push(LiteralView::Bytes(script.subrange(start, start + len))))
        }
    }
}

/// NEWARRAY and PACK: the count on top, then that many items, become one array.
///
/// A count that is not a literal, or is negative, leaves an unknown item; a count larger than
/// the rest of the tracked stack empties it.
pub open spec fn collect_array(stack: Seq<LiteralView>) -> Seq<LiteralView> {
    if stack.len() == 0 {
        seq![LiteralView::Unknown]
    } else {
        let rest = stack.drop_last();
        match stack.last() {
            LiteralView::Integer(count) => {
                if count < 0 {
                    rest.push(LiteralView::Unknown)
                } else if count > rest.len() {
                    Seq::empty()
                } else {
                    rest.subrange(0, rest.len() - count).push(LiteralView::Array(count as nat))
                }
            },
            _ => rest.push(LiteralView::Unknown),
        }
    }
}

/// Any other instruction: the tracked stack is forgotten and the operand is skipped.
pub open spec fn skip_operand_step(op: u8, script: Seq<u8>, pc: int) -> StepOutcome {
    let prefix = spec_operand_prefix(op) as int;
    if prefix > 0 {
        if pc + prefix > script.len() {
            stop(pc, Seq::empty())
        } else {
            let len = le_unsigned(script.subrange(pc, pc + prefix)) as int;
            let start = pc + prefix;
            if start + len > script.len() {
                stop(start, Seq::empty())
            } else {
                cont(start + len, Seq::empty())
            }
        }
    } else {
        let size = spec_operand_size(op) as int;
        if pc + size > script.len() {
            stop(pc, Seq::empty())
        } else {
            cont(pc + size, Seq::empty())
        }
    }
}

/// The effect of the instruction `op`, whose operand starts at `pc`.
pub open spec fn spec_step(op: u8, script: Seq<u8>, pc: int, stack: Seq<LiteralView>) -> StepOutcome {
    if op == PUSHM1 {
        cont(pc, stack.push(LiteralView::Integer(-1)))
    } else if PUSH0 <= op <= PUSH16 {
        cont(pc, stack.push(LiteralView::Integer(op - PUSH0)))
    } else if op == PUSHINT8 {
        push_int_step(script, pc, stack, 1)
    } else if op == PUSHINT16 {
        push_int_step(script, pc, stack, 2)
    } else if op == PUSHINT32 {
        push_int_step(script, pc, stack, 4)
    } else if op == PUSHINT64 {
        push_int_step(script, pc, stack, 8)
    } else if op == PUSHINT128 {
        push_int_step(script, pc, stack, 16)
    } else if op == PUSHDATA1 {
        push_data_step(script, pc, stack, 1)
    } else if op == PUSHDATA2 {
        push_data_step(script, pc, stack, 2)
    } else if op == PUSHDATA4 {
        push_data_step(script, pc, stack, 4)
    } else if op == NEWARRAY0 {
        cont(pc, stack.push(LiteralView::Array(0)))
    } else if op == NEWARRAY || op == PACK {
        cont(pc, collect_array(stack))
    } else if op == DROP {
        cont(pc, if stack.len() > 0 { stack.drop_last() } else { stack })
    } else if op == RET {
        cont(pc, Seq::empty())
    } else if op == SYSCALL {
        if pc + 4 > script.len() {
            stop(pc, stack)
        } else {
            StepOutcome {
                pc: pc + 4,
                stack,
                event: TokenScanEvent::Syscall(le_unsigned(script.subrange(pc, pc + 4)) as u32),
            }
        }
    } else {
        skip_operand_step(op, script, pc)
    }
}

/// An integer literal that the emitter writes is read back by the scanner: in any script that
/// holds the shortest push of `v` at `pre.len()`, the scanner's step from the opcode pushes the
/// literal `v` and moves past the instruction.
pub proof fn lemma_push_int_read_back(pre: Seq<u8>, v: i128, post: Seq<u8>, stack: Seq<LiteralView>)
    ensures
        ({
            let code = push_int_bytes(v as int);
            let script = pre + code + post;
            spec_step(code[0], script, pre.len() + 1int, stack) == cont(
                pre.len() + code.len() as int,
                stack.push(LiteralView::Integer(v as int)),
            )
        }),
{
    lemma_pow256_values();
    let code = push_int_bytes(v as int);
    let script = pre + code + post;
    let at: int = pre.len() + 1int;
    if v as int == -1 || 0 <= v <= 16 {
        assert(code.len() == 1);
    } else {
        let n: nat = if fits_signed(v as int, 1) {
            1
        } else if fits_signed(v as int, 2) {
            2
        } else if fits_signed(v as int, 4) {
            4
        } else if fits_signed(v as int, 8) {
            8
        } else {
            16
        };
        assert(fits_signed(v as int, n));
        lemma_le_signed_roundtrip(v as int, n);
        let enc = le_encode_signed(v as int, n);
        assert(code.drop_first() =~= enc);
        assert(script.subrange(at, at + n as int) =~= enc);
    }
}

/// A byte string that the emitter writes is read back by the scanner: in any script that holds
/// the shortest PUSHDATA of `data` at `pre.len()`, the scanner's step from the opcode pushes
/// those bytes and moves past the instruction.
pub proof fn lemma_push_data_read_back(
    pre: Seq<u8>,
    data: Seq<u8>,
    post: Seq<u8>,
    stack: Seq<LiteralView>,
)
    requires
        data.len() <= 0xFFFF_FFFF,
    ensures
        ({
            let code = push_data_bytes(data);
            let script = pre + code + post;
            spec_step(code[0], script, pre.len() + 1int, stack) == cont(
                pre.len() + code.len() as int,
                stack.push(LiteralView::Bytes(data)),
            )
        }),
{
    lemma_pow256_values();
    let code = push_data_bytes(data);
    let script = pre + code + post;
    let at: int = pre.len() + 1int;
    let n: nat = if data.len() <= 0xFF {
        1
    } else if data.len() <= 0xFFFF {
        2
    } else {
        4
    };
    let len_bytes = code.subrange(1, 1 + n as int);
    if n == 1 {
        assert(len_bytes =~= seq![data.len() as u8]);
        assert(le_unsigned(len_bytes) == data.len()) by {
            assert(len_bytes.drop_first() =~= Seq::<u8>::empty());
            assert(le_unsigned(Seq::<u8>::empty()) == 0);
            assert(len_bytes[0] as int == data.len());
        }
    } else {
        lemma_le_roundtrip(data.len(), n);
        assert(len_bytes =~= le_encode(data.len(), n));
    }
    assert(script.subrange(at, at + n as int) =~= len_bytes);
    assert(script.subrange(at + n as int, at + n + data.len()) =~= data);
}

/// A SYSCALL that the emitter writes is read back by the scanner: in any script that holds the
/// SYSCALL of identifier `hash` at `pre.len()`, the scanner's step from the opcode reports that
/// identifier and moves past the instruction.
pub proof fn lemma_syscall_read_back(pre: Seq<u8>, hash: u32, post: Seq<u8>, stack: Seq<LiteralView>)
    ensures
        ({
            let script = pre + syscall_bytes(hash) + post;
            spec_step(SYSCALL, script, pre.len() + 1int, stack) == StepOutcome {
                pc: pre.len() + 5int,
                stack,
                event: TokenScanEvent::Syscall(hash),
            }
        }),
{
    lemma_pow256_values();
    lemma_le_roundtrip(hash as nat, 4);
    let script = pre + syscall_bytes(hash) + post;
    let at: int = pre.len() + 1int;
    assert(script.subrange(at, at + 4) =~= le_encode(hash as nat, 4));
}

/// Each instruction that does not stop the scan moves past its operand and stays in the script.
pub proof fn lemma_step_progress(op: u8, script: Seq<u8>, pc: int, stack: Seq<LiteralView>)
    requires
        0 <= pc <= script.len(),
    ensures
        spec_step(op, script, pc, stack).pc >= pc,
        spec_step(op, script, pc, stack).event != TokenScanEvent::Stop ==> spec_step(
            op,
            script,
            pc,
            stack,
        ).pc <= script.len(),
{
}

proof fn lemma_lits_push(s: Seq<Literal>, l: Literal)
    ensures
        lits(s.push(l)) == lits(s).push(l@),
{
    assert(lits(s.push(l)) =~= lits(s).push(l@));
}

proof fn lemma_lits_subrange(s: Seq<Literal>, i: int, j: int)
    requires
        0 <= i <= j <= s.len(),
    ensures
        lits(s.subrange(i, j)) == lits(s).subrange(i, j),
{
    assert(lits(s.subrange(i, j)) =~= lits(s).subrange(i, j));
}

proof fn lemma_lits_empty()
    ensures
        lits(Seq::<Literal>::empty()) == Seq::<LiteralView>::empty(),
{
    assert(lits(Seq::<Literal>::empty()) =~= Seq::<LiteralView>::empty());
}

/// Pushes the `k`-byte integer operand at `pc`.
fn push_int_operand(script: &[u8], pc: &mut usize, stack: &mut Vec<Literal>, k: usize) -> (ev:
    TokenScanEvent)
    requires
        1 <= k <= 16,
        *old(pc) <= script@.len(),
    ensures
        ev == push_int_step(script@, *old(pc) as int, lits(old(stack)@), k as int).event,
        *final(pc) as int == push_int_step(script@, *old(pc) as int, lits(old(stack)@), k as int).pc,
        lits(final(stack)@) == push_int_step(script@, *old(pc) as int, lits(old(stack)@), k as int).stack,
{
    if script.len() - *pc < k {
        return TokenScanEvent::Stop;
    }
    let value = read_le_signed(script, *pc, k);
    *pc = *pc + k;
    proof {
        lemma_lits_push(stack@, Literal::Integer(value));
    }
    stack.push(Literal::Integer(value));
    TokenScanEvent::Continue
}

/// Pushes the byte string at `pc`, whose length takes a `k`-byte prefix.
fn push_data_operand(script: &[u8], pc: &mut usize, stack: &mut Vec<Literal>, k: usize) -> (ev:
    TokenScanEvent)
    requires
        1 <= k <= 4,
        *old(pc) <= script@.len(),
    ensures
        ev == push_data_step(script@, *old(pc) as int, lits(old(stack)@), k as int).event,
        *final(pc) as int == push_data_step(script@, *old(pc) as int, lits(old(stack)@), k as int).pc,
        lits(final(stack)@) == push_data_step(script@, *old(pc) as int, lits(old(stack)@), k as int).stack,
{
    if script.len() - *pc < k {
        return TokenScanEvent::Stop;
    }
    let len = read_le_unsigned(script, *pc, k);
    *pc = *pc + k;
    if len > (script.len() - *pc) as u128 {
        return TokenScanEvent::Stop;
    }
    let len = len as usize;
    let data = slice_to_vec(slice_subrange(script, *pc, *pc + len));
    *pc = *pc + len;
    proof {
        lemma_lits_push(stack@, Literal::Bytes(data));
    }
    stack.push(Literal::Bytes(data));
    TokenScanEvent::Continue
}

/// NEWARRAY and PACK on the tracked stack.
fn collect_array_items(stack: &mut Vec<Literal>)
    ensures
        lits(final(stack)@) == collect_array(lits(old(stack)@)),
{
    let ghost before = stack@;
    let top = stack.pop();
    proof {
        if before.len() > 0 {
            lemma_lits_subrange(before, 0, before.len() - 1);
            assert(lits(before).drop_last() =~= lits(before).subrange(0, before.len() - 1));
        }
    }
    match top {
        Some(Literal::Integer(count)) => {
            if count < 0 {
                proof {
                    lemma_lits_push(stack@, Literal::Unknown);
                }
                stack.push(Literal::Unknown);
                return;
            }
            if count > stack.len() as i128 {
                stack.clear();
                proof {
                    lemma_lits_empty();
                }
                return;
            }
            let count = count as usize;
            let keep = stack.len() - count;
            proof {
                lemma_lits_subrange(stack@, 0, keep as int);
            }
            stack.truncate(keep);
            proof {
                lemma_lits_push(stack@, Literal::Array(count));
            }
            stack.push(Literal::Array(count));
        },
        _ => {
            proof {
                lemma_lits_push(stack@, Literal::Unknown);
                if before.len() == 0 {
                    lemma_lits_empty();
                    assert(seq![LiteralView::Unknown] =~= Seq::<LiteralView>::empty().push(
                        LiteralView::Unknown,
                    ));
                }
            }
            stack.push(Literal::Unknown);
        },
    }
}

/// Forgets the tracked stack and skips the operand of an uninterpreted instruction.
fn skip_operand(op: u8, script: &[u8], pc: &mut usize, stack: &mut Vec<Literal>) -> (ev:
    TokenScanEvent)
    requires
        *old(pc) <= script@.len(),
    ensures
        ev == skip_operand_step(op, script@, *old(pc) as int).event,
        *final(pc) as int == skip_operand_step(op, script@, *old(pc) as int).pc,
        lits(final(stack)@) == skip_operand_step(op, script@, *old(pc) as int).stack,
{
    stack.clear();
    proof {
        lemma_lits_empty();
    }
    let prefix = operand_prefix(op) as usize;
    if prefix > 0 {
        assert(prefix <= 4);
        if script.len() - *pc < prefix {
            return TokenScanEvent::Stop;
        }
        let len = read_le_unsigned(script, *pc, prefix);
        *pc = *pc + prefix;
        if len > (script.len() - *pc) as u128 {
            return TokenScanEvent::Stop;
        }
        *pc = *pc + len as usize;
        TokenScanEvent::Continue
    } else {
        let size = operand_size(op) as usize;
        if script.len() - *pc < size {
            return TokenScanEvent::Stop;
        }
        *pc = *pc + size;
        TokenScanEvent::Continue
    }
}

/// Interprets the instruction `op`, whose operand starts at `*pc`, on the tracked stack.
pub fn step(
    op: u8,
    script: &[u8],
    pc: &mut usize,
    ops: &OpcodeBytes,
    stack: &mut Vec<Literal>,
) -> (ev: TokenScanEvent)
    requires
        ops.canonical(),
        *old(pc) <= script@.len(),
    ensures
        ev == spec_step(op, script@, *old(pc) as int, lits(old(stack)@)).event,
        *final(pc) as int == spec_step(op, script@, *old(pc) as int, lits(old(stack)@)).pc,
        lits(final(stack)@) == spec_step(op, script@, *old(pc) as int, lits(old(stack)@)).stack,
{
    if is_op(ops.pushm1, op) {
        proof {
            lemma_lits_push(stack@, Literal::Integer(-1i128));
        }
        stack.push(Literal::Integer(-1));
        return TokenScanEvent::Continue;
    }
    match ops.push0 {
        Some(p0) => {
            if op >= p0 && op - p0 <= 16 {
                let value = (op - p0) as i128;
                proof {
                    lemma_lits_push(stack@, Literal::Integer(value));
                }
                stack.push(Literal::Integer(value));
                return TokenScanEvent::Continue;
            }
        },
        None => {},
    }
    if is_op(ops.pushint8, op) {
        return push_int_operand(script, pc, stack, 1);
    }
    if is_op(ops.pushint16, op) {
        return push_int_operand(script, pc, stack, 2);
    }
    if is_op(ops.pushint32, op) {
        return push_int_operand(script, pc, stack, 4);
    }
    if is_op(ops.pushint64, op) {
        return push_int_operand(script, pc, stack, 8);
    }
    if is_op(ops.pushint128, op) {
        return push_int_operand(script, pc, stack, 16);
    }
    if is_op(ops.pushdata1, op) {
        return push_data_operand(script, pc, stack, 1);
    }
    if is_op(ops.pushdata2, op) {
        return push_data_operand(script, pc, stack, 2);
    }
    if is_op(ops.pushdata4, op) {
        return push_data_operand(script, pc, stack, 4);
    }
    if is_op(ops.newarray0, op) {
        proof {
            lemma_lits_push(stack@, Literal::Array(0));
        }
        stack.push(Literal::Array(0));
        return TokenScanEvent::Continue;
    }
    if is_op(ops.newarray, op) || is_op(ops.pack, op) {
        collect_array_items(stack);
        return TokenScanEvent::Continue;
    }
    if is_op(ops.drop_op, op) {
        let ghost before = stack@;
        let _ = stack.pop();
        proof {
            if before.len() > 0 {
                lemma_lits_subrange(before, 0, before.len() - 1);
                assert(lits(before).drop_last() =~= lits(before).subrange(0, before.len() - 1));
            }
        }
        return TokenScanEvent::Continue;
    }
    if is_op(ops.ret, op) {
        stack.clear();
        proof {
            lemma_lits_empty();
        }
        return TokenScanEvent::Continue;
    }
    if is_op(ops.syscall, op) {
        if script.len() - *pc < 4 {
            return TokenScanEvent::Stop;
        }
        let raw = read_le_unsigned(script, *pc, 4);
        proof {
            lemma_le_unsigned_bound(script@.subrange(*pc as int, *pc + 4));
            lemma_pow256_values();
        }
        let hash = raw as u32;
        *pc = *pc + 4;
        return TokenScanEvent::Syscall(hash);
    }
    skip_operand(op, script, pc, stack)
}


/// A method token: a contract method the script calls.
#[derive(Debug, Clone)]
pub struct MethodToken {
    pub contract_hash: [u8; 20],
    pub method: String,
    pub parameters_count: u16,
    pub has_return_value: bool,
    pub call_flags: u8,
}

/// The mathematical value of a method token.
pub struct TokenView {
    pub contract_hash: Seq<u8>,
    pub method: Seq<char>,
    pub parameters_count: nat,
    pub has_return_value: bool,
    pub call_flags: nat,
}

impl View for MethodToken {
    type V = TokenView;

    open spec fn view(&self) -> TokenView {
        TokenView {
            contract_hash: self.contract_hash@,
            method: self.method@,
            parameters_count: self.parameters_count as nat,
            has_return_value: self.has_return_value,
            call_flags: self.call_flags as nat,
        }
    }
}

/// A sequence of method tokens, token by token.
pub open spec fn toks(s: Seq<MethodToken>) -> Seq<TokenView> {
    s.map_values(|t: MethodToken| t@)
}

/// Pops the tracked top item, or yields an unknown item when nothing is tracked.
pub open spec fn pop_lit(stack: Seq<LiteralView>) -> (LiteralView, Seq<LiteralView>) {
    if stack.len() > 0 {
        (stack.last(), stack.drop_last())
    } else {
        (LiteralView::Unknown, stack)
    }
}

/// Whether the value a call leaves is used: the next instruction is not DROP.
pub open spec fn has_return_at(script: Seq<u8>, pc: int) -> bool {
    if pc < script.len() {
        script[pc] != DROP
    } else {
        true
    }
}

/// What a `System.Contract.Call` with these arguments contributes.
pub enum CallDecision {
    /// A method token.
    Token(TokenView),
    /// The method name is too long: nothing is recorded and nothing is pushed for the result.
    SkipResult,
    /// The arguments are not all literals of the expected kind: no token.
    NoToken,
}

/// The method token for a `System.Contract.Call` whose arguments the scanner tracked.
pub open spec fn call_decision(
    hash: LiteralView,
    method: LiteralView,
    flags: LiteralView,
    args: LiteralView,
    has_return: bool,
) -> CallDecision {
    match (hash, method, flags, args) {
        (
            LiteralView::Bytes(h),
            LiteralView::Bytes(m),
            LiteralView::Integer(f),
            LiteralView::Array(n),
        ) => {
            if h.len() != HASH160_LENGTH || !valid_utf8(m) {
                CallDecision::NoToken
            } else if m.len() > MAX_TOKEN_METHOD_LEN {
                CallDecision::SkipResult
            } else if f < 0 || f > 255 || n > 0xFFFF {
                CallDecision::NoToken
            } else {
                CallDecision::Token(
                    TokenView {
                        contract_hash: h,
                        method: decode_utf8(m),
                        parameters_count: n,
                        has_return_value: has_return,
                        call_flags: f as nat,
                    },
                )
            }
        },
        _ => CallDecision::NoToken,
    }
}

/// The descriptor of the contract-call interop service.
pub open spec fn is_contract_call_name(name: Seq<u8>) -> bool {
    eq_ignore_case(name, "System.Contract.Call".spec_bytes())
}

/// The tokens recorded and the tracked stack left by a SYSCALL with identifier `hash`, read
/// just before `pc`.
pub open spec fn syscall_effect(hash: u32, script: Seq<u8>, pc: int, stack: Seq<LiteralView>) -> (
    Seq<TokenView>,
    Seq<LiteralView>,
) {
    match spec_lookup_by_hash(hash) {
        None => (Seq::empty(), stack.push(LiteralView::Unknown)),
        Some(info) => {
            if is_contract_call_name(info.name.spec_bytes()) {
                let (args, s1) = pop_lit(stack);
                let (flags, s2) = pop_lit(s1);
                let (method, s3) = pop_lit(s2);
                let (hash_lit, s4) = pop_lit(s3);
                match call_decision(hash_lit, method, flags, args, has_return_at(script, pc)) {
                    CallDecision::Token(t) => (seq![t], s4.push(LiteralView::Unknown)),
                    CallDecision::SkipResult => (Seq::empty(), s4),
                    CallDecision::NoToken => (Seq::empty(), s4.push(LiteralView::Unknown)),
                }
            } else if info.name.spec_bytes().len() > MAX_TOKEN_METHOD_LEN {
                (Seq::empty(), stack.push(LiteralView::Unknown).push(LiteralView::Unknown))
            } else {
                (
                    seq![
                        TokenView {
                            contract_hash: Seq::new(20, |i: int| 0u8),
                            method: info.name@,
                            parameters_count: 0,
                            has_return_value: has_return_at(script, pc),
                            call_flags: 0,
                        },
                    ],
                    stack.push(LiteralView::Unknown),
                )
            }
        },
    }
}

/// The tokens found by scanning `script` from the instruction at `pc` with `stack` tracked.
pub open spec fn scan_from(script: Seq<u8>, pc: int, stack: Seq<LiteralView>) -> Seq<TokenView>
    decreases script.len() - pc,
{
    if pc < 0 || pc >= script.len() {
        Seq::empty()
    } else {
        let out = spec_step(script[pc], script, pc + 1, stack);
        proof {
            lemma_step_progress(script[pc], script, pc + 1, stack);
        }
        match out.event {
            TokenScanEvent::Stop => Seq::empty(),
            TokenScanEvent::Continue => scan_from(script, out.pc, out.stack),
            TokenScanEvent::Syscall(hash) => {
                let eff = syscall_effect(hash, script, out.pc, out.stack);
                eff.0 + scan_from(script, out.pc, eff.1)
            },
        }
    }
}

/// A SYSCALL records at most one token, whose method name takes at most
/// `MAX_TOKEN_METHOD_LEN` bytes of UTF-8.
proof fn lemma_syscall_effect_bounds(hash: u32, script: Seq<u8>, pc: int, stack: Seq<LiteralView>)
    ensures
        syscall_effect(hash, script, pc, stack).0.len() <= 1,
        forall|i: int|
            0 <= i < syscall_effect(hash, script, pc, stack).0.len() ==> encode_utf8(
                (#[trigger] syscall_effect(hash, script, pc, stack).0[i]).method,
            ).len() <= MAX_TOKEN_METHOD_LEN,
{
    broadcast use vstd::utf8::decode_utf8_encode_utf8;

    match spec_lookup_by_hash(hash) {
        None => {},
        Some(info) => {
            if is_contract_call_name(info.name.spec_bytes()) {
                let (args, s1) = pop_lit(stack);
                let (flags, s2) = pop_lit(s1);
                let (method, s3) = pop_lit(s2);
                let (hash_lit, s4) = pop_lit(s3);
                match (hash_lit, method, flags, args) {
                    (
                        LiteralView::Bytes(h),
                        LiteralView::Bytes(m),
                        LiteralView::Integer(f),
                        LiteralView::Array(n),
                    ) => {
                        if valid_utf8(m) {
                            assert(encode_utf8(decode_utf8(m)) == m);
                        }
                    },
                    _ => {},
                }
            }
        },
    }
}

/// Scanning from `pc` records at most one token per byte left, each with a method name of at
/// most `MAX_TOKEN_METHOD_LEN` bytes of UTF-8.
proof fn lemma_scan_bounds(script: Seq<u8>, pc: int, stack: Seq<LiteralView>)
    requires
        0 <= pc,
    ensures
        scan_from(script, pc, stack).len() <= if pc <= script.len() {
            script.len() - pc
        } else {
            0
        },
        forall|i: int|
            0 <= i < scan_from(script, pc, stack).len() ==> encode_utf8(
                (#[trigger] scan_from(script, pc, stack)[i]).method,
            ).len() <= MAX_TOKEN_METHOD_LEN,
    decreases script.len() - pc,
{
    if pc < script.len() {
        let out = spec_step(script[pc], script, pc + 1, stack);
        lemma_step_progress(script[pc], script, pc + 1, stack);
        match out.event {
            TokenScanEvent::Stop => {},
            TokenScanEvent::Continue => {
                lemma_scan_bounds(script, out.pc, out.stack);
            },
            TokenScanEvent::Syscall(hash) => {
                let eff = syscall_effect(hash, script, out.pc, out.stack);
                lemma_syscall_effect_bounds(hash, script, out.pc, out.stack);
                lemma_scan_bounds(script, out.pc, eff.1);
                let rest = scan_from(script, out.pc, eff.1);
                assert(scan_from(script, pc, stack) == eff.0 + rest);
                assert forall|i: int| 0 <= i < (eff.0 + rest).len() implies encode_utf8(
                    (#[trigger] (eff.0 + rest)[i]).method,
                ).len() <= MAX_TOKEN_METHOD_LEN by {
                    if i < eff.0.len() {
                        assert((eff.0 + rest)[i] == eff.0[i]);
                    } else {
                        assert((eff.0 + rest)[i] == rest[i - eff.0.len()]);
                    }
                }
            },
        }
    }
}

/// The method tokens of a script are at most one per byte, and each names its method in at
/// most `MAX_TOKEN_METHOD_LEN` bytes of UTF-8.
pub proof fn lemma_contract_tokens_bounded(script: Seq<u8>)
    ensures
        spec_contract_tokens(script).len() <= script.len(),
        forall|i: int|
            0 <= i < spec_contract_tokens(script).len() ==> encode_utf8(
                (#[trigger] spec_contract_tokens(script)[i]).method,
            ).len() <= MAX_TOKEN_METHOD_LEN,
{
    lemma_scan_bounds(script, 0, Seq::empty());
}

/// The method tokens a script needs, in the order of its SYSCALLs.
pub open spec fn spec_contract_tokens(script: Seq<u8>) -> Seq<TokenView> {
    scan_from(script, 0, Seq::empty())
}

/// Calls `String::from_utf8`, which succeeds exactly on valid UTF-8 and then holds the decoded
/// characters of the same bytes.
#[verifier::external_body]
fn string_from_utf8(bytes: Vec<u8>) -> (r: Option<String>)
    ensures
        r is Some <==> valid_utf8(bytes@),
        r matches Some(s) ==> s@ == decode_utf8(bytes@),
{
    String::from_utf8(bytes).ok()
}

/// Pops the tracked top item, or yields an unknown item when nothing is tracked.
fn pop_or_unknown(stack: &mut Vec<Literal>) -> (l: Literal)
    ensures
        l@ == pop_lit(lits(old(stack)@)).0,
        lits(final(stack)@) == pop_lit(lits(old(stack)@)).1,
{
    let ghost before = stack@;
    proof {
        if before.len() > 0 {
            lemma_lits_subrange(before, 0, before.len() - 1);
            assert(lits(before).drop_last() =~= lits(before).subrange(0, before.len() - 1));
        }
    }
    match stack.pop() {
        Some(l) => l,
        None => Literal::Unknown,
    }
}

/// Copies a 20-byte contract hash into an array.
fn hash_array(h: &Vec<u8>) -> (a: [u8; 20])
    requires
        h@.len() == HASH160_LENGTH,
    ensures
        a@ == h@,
{
    let mut a = [0u8; 20];
    let mut i: usize = 0;
    while i < 20
        invariant
            i <= 20,
            h@.len() == 20,
            a@.len() == 20,
            forall|j: int| 0 <= j < i ==> a@[j] == h@[j],
        decreases 20 - i,
    {
        a[i] = h[i];
        i = i + 1;
    }
    assert(a@ =~= h@);
    a
}

/// Decides the token of a `System.Contract.Call` from its tracked arguments.
fn contract_call_token(
    hash_lit: Literal,
    method: Literal,
    flags: Literal,
    args: Literal,
    has_return: bool,
) -> (r: (Option<MethodToken>, bool))
    ensures
        match call_decision(hash_lit@, method@, flags@, args@, has_return) {
            CallDecision::Token(t) => r.0 matches Some(tok) && tok@ == t && !r.1,
            CallDecision::SkipResult => r.0 is None && r.1,
            CallDecision::NoToken => r.0 is None && !r.1,
        },
{
    match (hash_lit, method, flags, args) {
        (
            Literal::Bytes(contract_hash),
            Literal::Bytes(method_bytes),
            Literal::Integer(flags),
            Literal::Array(param_count),
        ) => {
            if contract_hash.len() != HASH160_LENGTH {
                return (None, false);
            }
            let too_long = method_bytes.len() > MAX_TOKEN_METHOD_LEN;
            let ghost mb = method_bytes@;
            match string_from_utf8(method_bytes) {
                Some(method_name) => {
                    if too_long {
                        return (None, true);
                    }
                    if flags < 0 || flags > 255 || param_count > 0xFFFF {
                        return (None, false);
                    }
                    let token = MethodToken {
                        contract_hash: hash_array(&contract_hash),
                        method: method_name,
                        parameters_count: param_count as u16,
                        has_return_value: has_return,
                        call_flags: flags as u8,
                    };
                    (Some(token), false)
                },
                None => (None, false),
            }
        },
        _ => (None, false),
    }
}

/// Applies a SYSCALL with identifier `hash`, read just before `pc`, to the tracked stack and the
/// tokens found so far.
fn apply_syscall(
    hash: u32,
    script: &[u8],
    pc: usize,
    ops: &OpcodeBytes,
    stack: &mut Vec<Literal>,
    tokens: &mut Vec<MethodToken>,
)
    requires
        ops.canonical(),
    ensures
        toks(final(tokens)@) == toks(old(tokens)@) + syscall_effect(
            hash,
            script@,
            pc as int,
            lits(old(stack)@),
        ).0,
        lits(final(stack)@) == syscall_effect(hash, script@, pc as int, lits(old(stack)@)).1,
{
    let ghost tokens0 = tokens@;
    let ghost stack0 = lits(stack@);
    let has_return_value = if pc < script.len() {
        !is_op(ops.drop_op, script[pc])
    } else {
        true
    };
    match lookup_by_hash(hash) {
        None => {
            proof {
                lemma_lits_push(stack@, Literal::Unknown);
                assert(toks(tokens@) =~= toks(tokens@) + Seq::<TokenView>::empty());
            }
            stack.push(Literal::Unknown);
        },
        Some(info) => {
            if str_eq_ignore_case(info.name, "System.Contract.Call") {
                let args = pop_or_unknown(stack);
                let call_flags = pop_or_unknown(stack);
                let method = pop_or_unknown(stack);
                let hash_bytes = pop_or_unknown(stack);
                let (token, skip_result) = contract_call_token(
                    hash_bytes,
                    method,
                    call_flags,
                    args,
                    has_return_value,
                );
                match token {
                    Some(t) => {
                        proof {
                            assert(toks(tokens@.push(t)) =~= toks(tokens@) + seq![t@]);
                        }
                        tokens.push(t);
                    },
                    None => {
                        proof {
                            assert(toks(tokens@) =~= toks(tokens@) + Seq::<TokenView>::empty());
                        }
                    },
                }
                if skip_result {
                    return ;
                }
                proof {
                    lemma_lits_push(stack@, Literal::Unknown);
                }
                stack.push(Literal::Unknown);
            } else if info.name.as_bytes().len() > MAX_TOKEN_METHOD_LEN {
                proof {
                    lemma_lits_push(stack@, Literal::Unknown);
                    lemma_lits_push(stack@.push(Literal::Unknown), Literal::Unknown);
                    assert(toks(tokens@) =~= toks(tokens@) + Seq::<TokenView>::empty());
                }
                stack.push(Literal::Unknown);
                stack.push(Literal::Unknown);
            } else {
                let token = MethodToken {
                    contract_hash: [0u8; 20],
                    method: info.name.to_owned(),
                    parameters_count: 0,
                    has_return_value,
                    call_flags: 0,
                };
                proof {
                    assert(token.contract_hash@ =~= Seq::new(20, |i: int| 0u8));
                    assert(toks(tokens@.push(token)) =~= toks(tokens@) + seq![token@]);
                    lemma_lits_push(stack@, Literal::Unknown);
                }
                tokens.push(token);
                stack.push(Literal::Unknown);
            }
        },
    }
}

/// Infers the method tokens that `script` needs.
///
/// Every `System.Contract.Call` whose contract hash (20 bytes), method name (valid UTF-8 of at
/// most 32 bytes), call flags (0 to 255) and argument array (at most 65535 items) were pushed as
/// literals yields a token for that method; a SYSCALL to any other known service whose descriptor
/// has at most 32 bytes yields a token naming the service.
pub fn infer_contract_tokens(script: &[u8]) -> (tokens: Vec<MethodToken>)
    ensures
        toks(tokens@) == spec_contract_tokens(script@),
{
    let ops = OpcodeBytes::collect();
    if ops.syscall.is_none() {
        return Vec::new();
    }
    let mut tokens: Vec<MethodToken> = Vec::new();
    let mut stack: Vec<Literal> = Vec::new();
    let mut pc: usize = 0;
    proof {
        lemma_lits_empty();
        assert(toks(tokens@) =~= Seq::<TokenView>::empty());
        assert(toks(tokens@) + scan_from(script@, 0, lits(stack@)) =~= scan_from(
            script@,
            0,
            lits(stack@),
        ));
    }
    while pc < script.len()
        invariant
            pc <= script@.len(),
            ops.canonical(),
            toks(tokens@) + scan_from(script@, pc as int, lits(stack@)) == spec_contract_tokens(
                script@,
            ),
        decreases script@.len() - pc,
    {
        let ghost pc0 = pc as int;
        let ghost stack0 = lits(stack@);
        let ghost tokens0 = toks(tokens@);
        let op = script[pc];
        pc = pc + 1;
        let ev = step(op, script, &mut pc, &ops, &mut stack);
        proof {
            lemma_step_progress(op, script@, pc0 + 1, stack0);
        }
        match ev {
            TokenScanEvent::Continue => {},
            TokenScanEvent::Stop => {
                proof {
                    assert(tokens0 =~= tokens0 + Seq::<TokenView>::empty());
                }
                return tokens;
            },
            TokenScanEvent::Syscall(hash) => {
                let ghost s1 = lits(stack@);
                apply_syscall(hash, script, pc, &ops, &mut stack, &mut tokens);
                proof {
                    let eff = syscall_effect(hash, script@, pc as int, s1);
                    assert(tokens0 + (eff.0 + scan_from(script@, pc as int, eff.1)) =~= (tokens0
                        + eff.0) + scan_from(script@, pc as int, eff.1));
                }
            },
        }
    }
    proof {
        assert(toks(tokens@) =~= toks(tokens@) + Seq::<TokenView>::empty());
    }
    tokens
}

} // verus!
