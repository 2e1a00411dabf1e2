//! Emission of NeoVM instructions into a script buffer.

use vstd::prelude::*;

use crate::errors::TranslateError;
use crate::le::{
    fits_signed, le_encode, le_encode_signed, le_signed, lemma_le_encode_len,
    lemma_le_signed_roundtrip, lemma_pow256_values, push_le_bytes, twos,
};
use crate::opcodes::{
    CALL_L, LDARG0, LDLOC0, LDSFLD0, PUSH0, PUSH16, PUSHDATA1, PUSHDATA2, PUSHDATA4, PUSHINT128,
    PUSHINT16, PUSHINT32, PUSHINT64, PUSHINT8, PUSHM1, STARG0, STLOC0, STSFLD0,
};

verus! {

/// What the translator knows about one value on the Wasm operand stack.
#[derive(Debug, Clone, Copy, PartialEq, Eq)]
pub struct StackValue {
    /// The value, when it is a compile-time constant.
    pub const_value: Option<i128>,
    /// Where the instruction that pushed the constant starts, when it can be rewound.
    pub bytecode_start: Option<usize>,
}

impl StackValue {
    /// A value about which nothing is known.
    pub fn unknown() -> (r: StackValue)
        ensures
            r.const_value is None,
            r.bytecode_start is None,
    {
        StackValue { const_value: None, bytecode_start: None }
    }
}

/// The shortest NeoVM instruction that pushes the integer `v`.
pub open spec fn push_int_bytes(v: int) -> Seq<u8> {
    if v == -1 {
        seq![PUSHM1]
    } else if 0 <= v <= 16 {
        seq![(PUSH0 + v) as u8]
    } else if fits_signed(v, 1) {
        seq![PUSHINT8] + le_encode_signed(v, 1)
    } else if fits_signed(v, 2) {
        seq![PUSHINT16] + le_encode_signed(v, 2)
    } else if fits_signed(v, 4) {
        seq![PUSHINT32] + le_encode_signed(v, 4)
    } else if fits_signed(v, 8) {
        seq![PUSHINT64] + le_encode_signed(v, 8)
    } else {
        seq![PUSHINT128] + le_encode_signed(v, 16)
    }
}

/// The push of an integer is the shortest NeoVM literal for it: one byte for -1 to 16, and
/// otherwise the opcode and the fewest immediate bytes (1, 2, 4, 8 or 16) that hold it.
pub proof fn lemma_push_int_is_shortest(v: int, n: nat)
    requires
        n == 1 || n == 2 || n == 4 || n == 8 || n == 16,
        fits_signed(v, n),
    ensures
        push_int_bytes(v).len() <= 1 + n,
        -1 <= v <= 16 ==> push_int_bytes(v).len() == 1,
{
    lemma_pow256_values();
    lemma_le_encode_len(twos(v, 1), 1);
    lemma_le_encode_len(twos(v, 2), 2);
    lemma_le_encode_len(twos(v, 4), 4);
    lemma_le_encode_len(twos(v, 8), 8);
    lemma_le_encode_len(twos(v, 16), 16);
}

/// Appends the shortest instruction that pushes `value` and describes the pushed constant.
pub fn emit_push_int(script: &mut Vec<u8>, value: i128) -> (sv: StackValue)
    ensures
        final(script)@ == old(script)@ + push_int_bytes(value as int),
        sv.const_value == Some(value),
        sv.bytecode_start == Some(old(script)@.len() as usize),
{
    let start = script.len();
    proof {
        lemma_pow256_values();
    }
    if value == -1 {
        script.push(PUSHM1);
    } else if 0 <= value && value <= 16 {
        script.push(PUSH0 + value as u8);
    } else if -128 <= value && value < 128 {
        script.push(PUSHINT8);
        let u: u128 = if value < 0 { (value + 0x100) as u128 } else { value as u128 };
        push_le_bytes(script, u, 1);
    } else if -0x8000 <= value && value < 0x8000 {
        script.push(PUSHINT16);
        let u: u128 = if value < 0 { (value + 0x1_0000) as u128 } else { value as u128 };
        push_le_bytes(script, u, 2);
    } else if -0x8000_0000 <= value && value < 0x8000_0000 {
        script.push(PUSHINT32);
        let u: u128 = if value < 0 { (value + 0x1_0000_0000) as u128 } else { value as u128 };
        push_le_bytes(script, u, 4);
    } else if -0x8000_0000_0000_0000 <= value && value < 0x8000_0000_0000_0000 {
        script.push(PUSHINT64);
        let u: u128 = if value < 0 {
            (value + 0x1_0000_0000_0000_0000) as u128
        } else {
            value as u128
        };
        push_le_bytes(script, u, 8);
    } else {
        script.push(PUSHINT128);
        let u: u128 = if value < 0 {
            let shifted = (value + 1) + 0x7fff_ffff_ffff_ffff_ffff_ffff_ffff_ffff;
            (shifted as u128) + 0x8000_0000_0000_0000_0000_0000_0000_0000
        } else {
            value as u128
        };
        push_le_bytes(script, u, 16);
    }
    proof {
        assert(final(script)@ =~= old(script)@ + push_int_bytes(value as int));
    }
    StackValue { const_value: Some(value), bytecode_start: Some(start) }
}

/// The encoded length of the literal-push instruction starting with `op`, if `op` pushes an integer.
pub open spec fn literal_len_of(op: u8) -> Option<nat> {
    if op == PUSHM1 || (PUSH0 <= op <= PUSH16) {
        Some(1)
    } else if op == PUSHINT8 {
        Some(2)
    } else if op == PUSHINT16 {
        Some(3)
    } else if op == PUSHINT32 {
        Some(5)
    } else if op == PUSHINT64 {
        Some(9)
    } else if op == PUSHINT128 {
        Some(17)
    } else {
        None
    }
}

/// The instruction that pushes a byte string.
pub open spec fn push_data_bytes(data: Seq<u8>) -> Seq<u8> {
    if data.len() <= 0xFF {
        seq![PUSHDATA1, data.len() as u8] + data
    } else if data.len() <= 0xFFFF {
        seq![PUSHDATA2] + le_encode(data.len(), 2) + data
    } else {
        seq![PUSHDATA4] + le_encode(data.len(), 4) + data
    }
}

/// Appends the shortest PUSHDATA instruction for `data`.
pub fn emit_push_data(script: &mut Vec<u8>, data: &[u8]) -> (r: Result<(), TranslateError>)
    ensures
        r is Ok <==> data@.len() <= 0xFFFF_FFFF,
        r is Ok ==> final(script)@ == old(script)@ + push_data_bytes(data@),
        r is Err ==> final(script)@ == old(script)@,
{
    let n = data.len();
    if n > 0xFFFF_FFFF {
        return Err(TranslateError::DataTooLong { len: n });
    }
    if n <= 0xFF {
        script.push(PUSHDATA1);
        script.push(n as u8);
    } else if n <= 0xFFFF {
        script.push(PUSHDATA2);
        push_le_bytes(script, n as u128, 2);
    } else {
        script.push(PUSHDATA4);
        push_le_bytes(script, n as u128, 4);
    }
    let ghost before = script@;
    let mut i: usize = 0;
    while i < n
        invariant
            i <= n,
            n == data@.len(),
            script@ == before + data@.subrange(0, i as int),
        decreases n - i,
    {
        script.push(data[i]);
        i = i + 1;
        proof {
            assert(script@ =~= before + data@.subrange(0, i as int));
        }
    }
    proof {
        assert(data@.subrange(0, n as int) =~= data@);
        assert(final(script)@ =~= old(script)@ + push_data_bytes(data@));
    }
    Ok(())
}

/// A 32-bit jump instruction with a zero displacement, to be patched later.
pub open spec fn placeholder_bytes(op: u8) -> Seq<u8> {
    seq![op, 0u8, 0u8, 0u8, 0u8]
}

/// `script` with the 32-bit displacement of the instruction at `pos` set so it reaches `target`.
pub open spec fn patched(script: Seq<u8>, pos: int, target: int) -> Seq<u8> {
    script.subrange(0, pos + 1) + le_encode_signed(target - pos, 4) + script.subrange(
        pos + 5,
        script.len() as int,
    )
}

/// Patching code that follows `a` is patching that code alone, at positions moved by the
/// length of `a`: jumps are relative.
pub proof fn lemma_patched_shift(a: Seq<u8>, x: Seq<u8>, p: int, t: int)
    requires
        0 <= p,
        p + 5 <= x.len(),
    ensures
        patched(a + x, a.len() + p, a.len() + t) == a + patched(x, p, t),
{
    assert(patched(a + x, a.len() + p, a.len() + t) =~= a + patched(x, p, t));
}

/// Whether the displacement from `pos` to `target` fits a 32-bit operand.
pub open spec fn displacement_fits(pos: int, target: int) -> bool {
    -0x8000_0000 <= target - pos < 0x8000_0000
}

/// A patched jump reaches its target: its displacement, read back as a signed 32-bit integer,
/// is the distance from the instruction to the target, and every other byte is unchanged.
pub proof fn lemma_patched_jump_reaches_target(script: Seq<u8>, pos: int, target: int)
    requires
        0 <= pos,
        pos + 5 <= script.len(),
        displacement_fits(pos, target),
    ensures
        patched(script, pos, target).len() == script.len(),
        le_signed(patched(script, pos, target).subrange(pos + 1, pos + 5)) == target - pos,
        forall|i: int|
            0 <= i < script.len() && (i <= pos || i >= pos + 5) ==> #[trigger] patched(
                script,
                pos,
                target,
            )[i] == script[i],
{
    lemma_pow256_values();
    lemma_le_signed_roundtrip(target - pos, 4);
    let p = patched(script, pos, target);
    assert(p.subrange(pos + 1, pos + 5) =~= le_encode_signed(target - pos, 4));
    assert forall|i: int| 0 <= i < script.len() && (i <= pos || i >= pos + 5) implies #[trigger] p[i]
        == script[i] by {
        if i >= pos + 5 {
            assert(p[i] == script.subrange(pos + 5, script.len() as int)[i - pos - 5]);
        }
    }
}

/// Patching a jump at or after `n` leaves the first `n` bytes and the length alone.
pub proof fn lemma_patch_keeps_prefix(script: Seq<u8>, pos: int, target: int, n: int)
    requires
        0 <= n <= pos,
        pos + 5 <= script.len(),
        displacement_fits(pos, target),
    ensures
        patched(script, pos, target).len() == script.len(),
        patched(script, pos, target).subrange(0, n) == script.subrange(0, n),
{
    lemma_patched_jump_reaches_target(script, pos, target);
    assert(patched(script, pos, target).subrange(0, n) =~= script.subrange(0, n));
}

/// Whether `after` keeps the first `n` bytes of `before`.
pub open spec fn keeps_prefix(before: Seq<u8>, after: Seq<u8>, n: int) -> bool {
    &&& 0 <= n <= before.len()
    &&& n <= after.len()
    &&& after.subrange(0, n) == before.subrange(0, n)
}

/// Whether every constant among `values` was pushed at or after position `n`.
pub open spec fn values_after(values: Seq<StackValue>, n: int) -> bool {
    forall|i: int|
        0 <= i < values.len() && (#[trigger] values[i]).bytecode_start is Some ==> n
            <= values[i].bytecode_start->0
}

/// Keeping a prefix composes.
pub proof fn lemma_keeps_prefix_trans(a: Seq<u8>, b: Seq<u8>, c: Seq<u8>, n: int)
    requires
        keeps_prefix(a, b, n),
        keeps_prefix(b, c, n),
    ensures
        keeps_prefix(a, c, n),
{
}

/// Keeping a longer prefix keeps a shorter one.
pub proof fn lemma_keeps_prefix_shorter(a: Seq<u8>, b: Seq<u8>, m: int, n: int)
    requires
        keeps_prefix(a, b, m),
        0 <= n <= m,
    ensures
        keeps_prefix(a, b, n),
{
    assert(b.subrange(0, n) =~= b.subrange(0, m).subrange(0, n));
    assert(a.subrange(0, n) =~= a.subrange(0, m).subrange(0, n));
}

/// Appending keeps every prefix.
pub proof fn lemma_keeps_prefix_append(s: Seq<u8>, x: Seq<u8>, n: int)
    requires
        0 <= n <= s.len(),
    ensures
        keeps_prefix(s, s + x, n),
{
    assert((s + x).subrange(0, n) =~= s.subrange(0, n));
}

/// Cutting a script back to `m` bytes keeps the prefixes up to `m`.
pub proof fn lemma_keeps_prefix_cut(s: Seq<u8>, m: int, n: int)
    requires
        0 <= n <= m <= s.len(),
    ensures
        keeps_prefix(s, s.subrange(0, m), n),
{
    assert(s.subrange(0, m).subrange(0, n) =~= s.subrange(0, n));
}

/// Patching a jump at or after `n` keeps the first `n` bytes.
pub proof fn lemma_keeps_prefix_patch(s: Seq<u8>, pos: int, target: int, n: int)
    requires
        0 <= n <= pos,
        pos + 5 <= s.len(),
    ensures
        keeps_prefix(s, patched(s, pos, target), n),
{
    assert(patched(s, pos, target).subrange(0, n) =~= s.subrange(0, n));
}

/// Appends a 32-bit jump (or call) with a zero displacement and returns its position.
pub fn emit_jump_placeholder(script: &mut Vec<u8>, op: u8) -> (pos: usize)
    ensures
        pos == old(script)@.len(),
        final(script)@ == old(script)@ + placeholder_bytes(op),
{
    let pos = script.len();
    script.push(op);
    script.push(0);
    script.push(0);
    script.push(0);
    script.push(0);
    proof {
        assert(final(script)@ =~= old(script)@ + placeholder_bytes(op));
    }
    pos
}

/// Appends a CALL_L with a zero displacement and returns its position.
pub fn emit_call_placeholder(script: &mut Vec<u8>) -> (pos: usize)
    ensures
        pos == old(script)@.len(),
        final(script)@ == old(script)@ + placeholder_bytes(CALL_L),
{
    emit_jump_placeholder(script, CALL_L)
}

/// Points the 32-bit jump or call at `pos` to `target`.
pub fn patch_jump(script: &mut Vec<u8>, pos: usize, target: usize) -> (r: Result<(), TranslateError>)
    ensures
        r is Ok <==> (pos + 5 <= old(script)@.len() && displacement_fits(pos as int, target as int)),
        r is Ok ==> final(script)@ == patched(old(script)@, pos as int, target as int),
        r is Ok ==> final(script)@.len() == old(script)@.len(),
        r is Err ==> final(script)@ == old(script)@,
{
    let len = script.len();
    if pos > len || len - pos < 5 {
        return Err(TranslateError::JumpOutOfRange { from: pos, to: target });
    }
    let delta: i128 = (target as i128) - (pos as i128);
    if delta < -0x8000_0000 || delta >= 0x8000_0000 {
        return Err(TranslateError::JumpOutOfRange { from: pos, to: target });
    }
    let mut bytes: Vec<u8> = Vec::new();
    let u: u128 = if delta < 0 { (delta + 0x1_0000_0000) as u128 } else { delta as u128 };
    push_le_bytes(&mut bytes, u, 4);
    proof {
        lemma_pow256_values();
        lemma_le_encode_len(u as nat, 4);
        assert(bytes@ == le_encode_signed(target - pos, 4));
    }
    let ghost before = script@;
    let mut i: usize = 0;
    while i < 4
        invariant
            i <= 4,
            pos + 5 <= before.len(),
            len == before.len(),
            bytes@.len() == 4,
            script@.len() == before.len(),
            forall|k: int| 0 <= k < script@.len() ==> #[trigger] script@[k] == (
                if pos + 1 <= k < pos + 1 + i { bytes@[k - pos - 1] } else { before[k] }
            ),
        decreases 4 - i,
    {
        script.set(pos + 1 + i, bytes[i]);
        i = i + 1;
    }
    proof {
        assert(final(script)@ =~= patched(before, pos as int, target as int));
    }
    Ok(())
}

/// Points the CALL_L at `pos` to `target`.
pub fn patch_call(script: &mut Vec<u8>, pos: usize, target: usize) -> (r: Result<(), TranslateError>)
    ensures
        r is Ok <==> (pos + 5 <= old(script)@.len() && displacement_fits(pos as int, target as int)),
        r is Ok ==> final(script)@ == patched(old(script)@, pos as int, target as int),
        r is Ok ==> final(script)@.len() == old(script)@.len(),
        r is Err ==> final(script)@ == old(script)@,
{
    patch_jump(script, pos, target)
}

/// Appends a 32-bit jump whose target is already known.
pub fn emit_jump_to(script: &mut Vec<u8>, op: u8, target: usize) -> (r: Result<(), TranslateError>)
    ensures
        r is Ok <==> displacement_fits(old(script)@.len() as int, target as int),
        r is Ok ==> final(script)@ == old(script)@ + seq![op] + le_encode_signed(
            target - old(script)@.len(),
            4,
        ),
        r is Err ==> final(script)@ == old(script)@,
{
    let pos = script.len();
    let delta: i128 = (target as i128) - (pos as i128);
    if delta < -0x8000_0000 || delta >= 0x8000_0000 {
        return Err(TranslateError::JumpOutOfRange { from: pos, to: target });
    }
    proof {
        lemma_pow256_values();
    }
    let u: u128 = if delta < 0 { (delta + 0x1_0000_0000) as u128 } else { delta as u128 };
    script.push(op);
    push_le_bytes(script, u, 4);
    Ok(())
}

/// The slot-addressing instruction families.
#[derive(Debug, Clone, Copy, PartialEq, Eq)]
pub enum SlotOp {
    LoadArg,
    StoreArg,
    LoadLocal,
    StoreLocal,
    LoadStatic,
    StoreStatic,
}

/// The opcode of slot 0 of a family; slots 1 to 6 follow it.
pub open spec fn slot_base(kind: SlotOp) -> u8 {
    match kind {
        SlotOp::LoadArg => LDARG0,
        SlotOp::StoreArg => STARG0,
        SlotOp::LoadLocal => LDLOC0,
        SlotOp::StoreLocal => STLOC0,
        SlotOp::LoadStatic => LDSFLD0,
        SlotOp::StoreStatic => STSFLD0,
    }
}

/// The opcode of a family that takes its slot as a one-byte operand.
pub open spec fn slot_long(kind: SlotOp) -> u8 {
    (slot_base(kind) + 7) as u8
}

/// The instruction that addresses slot `index` of a family.
pub open spec fn slot_bytes(kind: SlotOp, index: int) -> Seq<u8> {
    if index <= 6 {
        seq![(slot_base(kind) + index) as u8]
    } else {
        seq![slot_long(kind), index as u8]
    }
}

/// Appends the instruction that addresses slot `index`, using the one-byte forms for slots 0-6.
pub fn emit_indexed_opcode(script: &mut Vec<u8>, kind: SlotOp, index: u32) -> (r: Result<(), TranslateError>)
    ensures
        r is Ok <==> index <= 255,
        r is Ok ==> final(script)@ == old(script)@ + slot_bytes(kind, index as int),
        r is Err ==> final(script)@ == old(script)@,
{
    let base: u8 = match kind {
        SlotOp::LoadArg => LDARG0,
        SlotOp::StoreArg => STARG0,
        SlotOp::LoadLocal => LDLOC0,
        SlotOp::StoreLocal => STLOC0,
        SlotOp::LoadStatic => LDSFLD0,
        SlotOp::StoreStatic => STSFLD0,
    };
    if index <= 6 {
        script.push(base + index as u8);
        proof {
            assert(final(script)@ =~= old(script)@ + slot_bytes(kind, index as int));
        }
        return Ok(());
    }
    if index > 255 {
        return Err(TranslateError::SlotIndexTooLarge { index });
    }
    script.push(base + 7);
    script.push(index as u8);
    proof {
        assert(final(script)@ =~= old(script)@ + slot_bytes(kind, index as int));
    }
    Ok(())
}

/// Loads argument `index`.
pub fn emit_load_arg(script: &mut Vec<u8>, index: u32) -> (r: Result<(), TranslateError>)
    ensures
        r is Ok <==> index <= 255,
        r is Ok ==> final(script)@ == old(script)@ + slot_bytes(SlotOp::LoadArg, index as int),
        r is Err ==> final(script)@ == old(script)@,
{
    emit_indexed_opcode(script, SlotOp::LoadArg, index)
}

/// Stores into argument `index`.
pub fn emit_store_arg(script: &mut Vec<u8>, index: u32) -> (r: Result<(), TranslateError>)
    ensures
        r is Ok <==> index <= 255,
        r is Ok ==> final(script)@ == old(script)@ + slot_bytes(SlotOp::StoreArg, index as int),
        r is Err ==> final(script)@ == old(script)@,
{
    emit_indexed_opcode(script, SlotOp::StoreArg, index)
}

/// Loads local slot `slot`.
pub fn emit_load_local_slot(script: &mut Vec<u8>, slot: u32) -> (r: Result<(), TranslateError>)
    ensures
        r is Ok <==> slot <= 255,
        r is Ok ==> final(script)@ == old(script)@ + slot_bytes(SlotOp::LoadLocal, slot as int),
        r is Err ==> final(script)@ == old(script)@,
{
    emit_indexed_opcode(script, SlotOp::LoadLocal, slot)
}

/// Stores into local slot `slot`.
pub fn emit_store_local_slot(script: &mut Vec<u8>, slot: u32) -> (r: Result<(), TranslateError>)
    ensures
        r is Ok <==> slot <= 255,
        r is Ok ==> final(script)@ == old(script)@ + slot_bytes(SlotOp::StoreLocal, slot as int),
        r is Err ==> final(script)@ == old(script)@,
{
    emit_indexed_opcode(script, SlotOp::StoreLocal, slot)
}

/// Loads static field `slot`.
pub fn emit_load_static(script: &mut Vec<u8>, slot: u32) -> (r: Result<(), TranslateError>)
    ensures
        r is Ok <==> slot <= 255,
        r is Ok ==> final(script)@ == old(script)@ + slot_bytes(SlotOp::LoadStatic, slot as int),
        r is Err ==> final(script)@ == old(script)@,
{
    emit_indexed_opcode(script, SlotOp::LoadStatic, slot)
}

/// Stores into static field `slot`.
pub fn emit_store_static(script: &mut Vec<u8>, slot: u32) -> (r: Result<(), TranslateError>)
    ensures
        r is Ok <==> slot <= 255,
        r is Ok ==> final(script)@ == old(script)@ + slot_bytes(SlotOp::StoreStatic, slot as int),
        r is Err ==> final(script)@ == old(script)@,
{
    emit_indexed_opcode(script, SlotOp::StoreStatic, slot)
}

} // verus!
