//! Translation of one WebAssembly function body into NeoVM bytecode.

use vstd::prelude::*;

use crate::control::{
    block_arity, branch_ok, branch_outcome, block_result_count, dispatches_cases, dynamic_table_outcome,
    cases_branch, selected_depth, table_depths, fixups_grow, frame_after, frames_after, handle_br_table, handle_branch,
    is_integer,
    is_integer_kind, lemma_frames_after_grow, lemma_values_after_truncated, unknown_value, ControlFrame,
    ControlKind,
};
use crate::emit::{
    emit_call_placeholder, emit_jump_placeholder, emit_load_arg, emit_load_local_slot,
    displacement_fits, emit_push_int, emit_store_arg, emit_store_local_slot,
    keeps_prefix, lemma_keeps_prefix_append, lemma_keeps_prefix_cut, lemma_keeps_prefix_patch,
    lemma_patched_shift, patched,
    lemma_keeps_prefix_shorter, literal_len_of,
    lemma_keeps_prefix_trans, lemma_patch_keeps_prefix, lemma_push_int_is_shortest, patch_call,
    patch_jump, placeholder_bytes, push_int_bytes, slot_bytes, values_after, SlotOp, StackValue,
};
use crate::errors::TranslateError;
use crate::le::{
    fits_signed, le_encode_signed, le_signed, lemma_le_encode_len, lemma_le_signed_roundtrip,
    lemma_pow256_values, twos,
};
use crate::features::FeatureTracker;
use crate::imports::{
    handle_import_call, literal_instruction_len, try_handle_neo_import, STACKITEMTYPE_BYTESTRING,
};
use crate::locals::{
    emit_local_get, emit_local_set, load_bytes, slot_addressable, store_bytes, LocalKind, LocalState,
};
use crate::module::{
    ArithKind, BlockKind, CmpKind, CodeBody, FuncSig, FunctionImport, Unsupported, ValKind, WasmModule, WasmOp,
};
use crate::outcomes::{
    arith_outcome, compare_outcome, local_get_outcome, local_set_outcome, local_tee_outcome, width_bits,
};
use crate::opcodes::{
    ABORT, ADD, CALL_L, CONVERT, DROP, DUP, EQUAL, GT, INITSLOT, ISNULL, ISTYPE, JMPIFNOT_L,
    JMPIF_L, JMP_L, NEGATE, PICKITEM, RET, SIZE,
};
use crate::ops::{
    emit_binary_op, emit_eqz, emit_rotate, emit_shift_right, emit_signed_compare,
    emit_unsigned_binary_op, emit_unsigned_compare, lemma_keeps_prefix_truncated, pop_value,
    truncated, BinOp, CompareOp, ShiftKind, UnsignedOp,
};
use crate::text::{
    ascii_lower_seq, bytes_contains, bytes_equal, lower_bytes, seq_contains, str_eq_ignore_case,
};
use vstd::string::StringSliceAdditionalSpecFns;
use vstd::utf8::encode_utf8;

verus! {

/// The NeoVM stack item type of an integer.
pub const STACKITEMTYPE_INTEGER: u8 = 0x21;

/// The NeoVM stack item type of an array.
pub const STACKITEMTYPE_ARRAY: u8 = 0x40;

/// The NeoVM stack item type of a struct.
pub const STACKITEMTYPE_STRUCT: u8 = 0x41;

/// The number of local slots the `onNEP17Payment` adapter needs.
pub const ON_NEP17_PAYMENT_CONFIG_SLOT_COUNT: u32 = 1;

/// The offset that the adapter adds to a packet count.
pub const ON_NEP17_ADAPTER_BASE: i128 = 1_000_000;

/// The packet count that marks an invalid configuration.
pub const ON_NEP17_INVALID_PACKET_COUNT: i128 = 101;

/// The code offsets of the defined functions, and the calls waiting for them.
pub struct FunctionRegistry {
    /// The offset of each function, once its code is emitted.
    pub offsets: Vec<Option<usize>>,
    /// The CALL_L instructions emitted so far: their position and the function they call.
    pub pending: Vec<(usize, usize)>,
}

impl FunctionRegistry {
    /// A registry for `total` functions, none of which is emitted yet.
    pub fn new(total: usize) -> (r: FunctionRegistry)
        ensures
            r.offsets@.len() == total,
            forall|i: int| 0 <= i < total ==> r.offsets@[i] is None,
            r.pending@.len() == 0,
    {
        FunctionRegistry { offsets: vec![None; total], pending: Vec::new() }
    }

    /// Whether the registry knows function `index`.
    pub fn contains_index(&self, index: usize) -> (r: bool)
        ensures
            r == (index < self.offsets@.len()),
    {
        index < self.offsets.len()
    }

    /// Records that function `index` starts at `offset`.
    pub fn register_offset(&mut self, index: usize, offset: usize) -> (r: Result<(), TranslateError>)
        ensures
            r is Ok <==> index < old(self).offsets@.len(),
            r is Ok ==> final(self).offsets@ == old(self).offsets@.update(index as int, Some(offset)),
            final(self).pending@ == old(self).pending@,
    {
        if index >= self.offsets.len() {
            return Err(TranslateError::FunctionIndexOutOfRange { index: index as u32 });
        }
        self.offsets.set(index, Some(offset));
        Ok(())
    }

    /// Emits a call of function `index`, to be pointed at it by [`FunctionRegistry::resolve`].
    pub fn emit_call(&mut self, script: &mut Vec<u8>, index: usize) -> (r: Result<(), TranslateError>)
        ensures
            r is Ok <==> index < old(self).offsets@.len(),
            r is Ok ==> final(script)@ == old(script)@ + placeholder_bytes(CALL_L)
                && final(self).pending@ == old(self).pending@.push((old(script)@.len() as usize, index)),
            r is Err ==> final(script)@ == old(script)@ && final(self).pending@ == old(self).pending@,
            final(self).offsets@ == old(self).offsets@,
    {
        if index >= self.offsets.len() {
            return Err(TranslateError::FunctionIndexOutOfRange { index: index as u32 });
        }
        let pos = emit_call_placeholder(script);
        self.pending.push((pos, index));
        Ok(())
    }

    /// Whether pending call `k` can be pointed at its function: the function is registered
    /// and the call's operand lies inside a script of length `len` and reaches it.
    pub open spec fn call_resolvable(&self, k: int, len: int) -> bool {
        let (pos, index) = self.pending@[k];
        &&& index < self.offsets@.len()
        &&& self.offsets@[index as int] is Some
        &&& pos + 5 <= len
        &&& displacement_fits(pos as int, self.offsets@[index as int]->0 as int)
    }

    /// Whether the operands of the pending calls do not overlap.
    pub open spec fn calls_apart(&self) -> bool {
        forall|j: int, k: int|
            0 <= j < k < self.pending@.len() ==> #[trigger] self.pending@[j].0 + 5 <= #[trigger] self.pending@[k].0
                || self.pending@[k].0 + 5 <= self.pending@[j].0
    }

    /// Points every emitted call at the function it calls.
    pub fn resolve(&self, script: &mut Vec<u8>) -> (r: Result<(), TranslateError>)
        ensures
            final(script)@.len() == old(script)@.len(),
            r is Ok <==> forall|k: int|
                0 <= k < self.pending@.len() ==> #[trigger] self.call_resolvable(
                    k,
                    old(script)@.len() as int,
                ),
            r is Ok && self.calls_apart() ==> forall|k: int|
                0 <= k < self.pending@.len() ==> final(script)@.subrange(
                    self.pending@[k].0 + 1,
                    self.pending@[k].0 + 5,
                ) == le_encode_signed(
                    self.offsets@[self.pending@[k].1 as int]->0 - self.pending@[k].0,
                    4,
                ),
            r is Ok && self.calls_apart() ==> forall|k: int|
                0 <= k < self.pending@.len() ==> le_signed(
                    #[trigger] final(script)@.subrange(self.pending@[k].0 + 1, self.pending@[k].0 + 5),
                ) == self.offsets@[self.pending@[k].1 as int]->0 - self.pending@[k].0,
    {
        let mut i: usize = 0;
        while i < self.pending.len()
            invariant
                i <= self.pending@.len(),
                script@.len() == old(script)@.len(),
                forall|k: int|
                    0 <= k < i ==> #[trigger] self.call_resolvable(k, old(script)@.len() as int),
                self.calls_apart() ==> forall|k: int|
                    0 <= k < i ==> script@.subrange(
                        self.pending@[k].0 + 1,
                        self.pending@[k].0 + 5,
                    ) == le_encode_signed(
                        self.offsets@[self.pending@[k].1 as int]->0 - self.pending@[k].0,
                        4,
                    ),
            decreases self.pending@.len() - i,
        {
            let (pos, index) = self.pending[i];
            if index >= self.offsets.len() {
                assert(!self.call_resolvable(i as int, old(script)@.len() as int));
                return Err(TranslateError::FunctionIndexOutOfRange { index: index as u32 });
            }
            match self.offsets[index] {
                Some(offset) => {
                    let ghost before = script@;
                    let res = patch_call(script, pos, offset);
                    if res.is_err() {
                        assert(!self.call_resolvable(i as int, old(script)@.len() as int));
                        return res;
                    }
                    proof {
                        lemma_le_encode_len(twos(offset - pos, 4), 4);
                        assert forall|x: int|
                            0 <= x < script@.len() && (x < pos + 1 || x >= pos + 5) implies #[trigger] script@[x]
                            == before[x] by {
                            if x >= pos + 5 {
                                assert(script@[x] == before.subrange(pos + 5, before.len() as int)[x - pos - 5]);
                            }
                        }
                        if self.calls_apart() {
                            assert forall|k: int| 0 <= k <= i implies script@.subrange(
                                self.pending@[k].0 + 1,
                                self.pending@[k].0 + 5,
                            ) == le_encode_signed(
                                self.offsets@[self.pending@[k].1 as int]->0 - self.pending@[k].0,
                                4,
                            ) by {
                                if k < i {
                                    assert(self.call_resolvable(k, old(script)@.len() as int));
                                    assert(self.pending@[k].0 + 5 <= self.pending@[i as int].0
                                        || self.pending@[i as int].0 + 5 <= self.pending@[k].0);
                                    assert(script@.subrange(self.pending@[k].0 + 1, self.pending@[k].0 + 5)
                                        =~= before.subrange(self.pending@[k].0 + 1, self.pending@[k].0 + 5));
                                } else {
                                    assert(script@.subrange(pos + 1, pos + 5) =~= le_encode_signed(
                                        offset - pos,
                                        4,
                                    ));
                                }
                            }
                        }
                    }
                },
                None => {
                    assert(!self.call_resolvable(i as int, old(script)@.len() as int));
                    return Err(TranslateError::FunctionIndexOutOfRange { index: index as u32 });
                },
            }
            i = i + 1;
        }
        proof {
            lemma_pow256_values();
            assert forall|k: int| 0 <= k < self.pending@.len() implies #[trigger] self.call_resolvable(
                k,
                old(script)@.len() as int,
            ) ==> fits_signed(
                self.offsets@[self.pending@[k].1 as int]->0 - self.pending@[k].0,
                4,
            ) by {}
            if self.calls_apart() {
                assert forall|k: int| 0 <= k < self.pending@.len() implies le_signed(
                    #[trigger] script@.subrange(self.pending@[k].0 + 1, self.pending@[k].0 + 5),
                ) == self.offsets@[self.pending@[k].1 as int]->0 - self.pending@[k].0 by {
                    assert(self.call_resolvable(k, old(script)@.len() as int));
                    lemma_le_signed_roundtrip(
                        self.offsets@[self.pending@[k].1 as int]->0 - self.pending@[k].0,
                        4,
                    );
                }
            }
        }
        Ok(())
    }
}

/// Appends the push of `value`, a constant that fits 32 bits, which takes at most five bytes.
fn emit_small_int(script: &mut Vec<u8>, value: i128)
    requires
        -0x8000_0000 <= value < 0x8000_0000,
    ensures
        final(script)@ == old(script)@ + push_int_bytes(value as int),
        final(script)@.len() <= old(script)@.len() + 5,
{
    proof {
        lemma_pow256_values();
        lemma_push_int_is_shortest(value as int, 4);
    }
    let _ = emit_push_int(script, value);
}

/// The adapter's test for a null argument 2, ending in a jump to patch.
pub open spec fn null_test() -> Seq<u8> {
    slot_bytes(SlotOp::LoadArg, 2) + seq![ISNULL] + placeholder_bytes(JMPIFNOT_L)
}

/// The code of the adapter's first part before its jump is patched.
pub open spec fn null_check_unpatched() -> Seq<u8> {
    null_test() + push_int_bytes(0) + slot_bytes(SlotOp::StoreArg, 2) + placeholder_bytes(JMP_L)
}

/// The code of the adapter's first part: when argument 2 is null it is set to 0 and a jump,
/// left unpatched at the last five bytes, leaves the adapter.
pub open spec fn null_check_bytes() -> Seq<u8> {
    patched(null_check_unpatched(), null_test().len() - 5, null_check_unpatched().len() as int)
}

/// The adapter's first part: a null `data` argument becomes 0 and skips the rest of the
/// adapter. Returns the position of that skipping jump.
#[verifier::spinoff_prover]
#[verifier::rlimit(30)]
fn emit_adapter_null_check(script: &mut Vec<u8>) -> (r: Result<usize, TranslateError>)
    ensures
        r is Ok,
        final(script)@ == old(script)@ + null_check_bytes(),
        r matches Ok(p) ==> p + 5 == final(script)@.len(),
        null_check_bytes().len() <= 32,
{
    let ghost start = script@;
    proof {
        lemma_pow256_values();
    }
    emit_load_arg(script, 2)?;
    script.push(ISNULL);
    let non_null = emit_jump_placeholder(script, JMPIFNOT_L);
    emit_small_int(script, 0);
    emit_store_arg(script, 2)?;
    let adapter_end_fixup = emit_jump_placeholder(script, JMP_L);
    let non_null_label = script.len();
    proof {
        assert(script@ =~= start + null_check_unpatched());
        lemma_patched_shift(
            start,
            null_check_unpatched(),
            null_test().len() - 5,
            null_check_unpatched().len() as int,
        );
    }
    patch_jump(script, non_null, non_null_label)?;
    Ok(adapter_end_fixup)
}

/// The adapter's test for an array, ending in a jump to patch.
pub open spec fn array_test() -> Seq<u8> {
    slot_bytes(SlotOp::LoadArg, 2) + seq![ISTYPE, STACKITEMTYPE_ARRAY] + placeholder_bytes(JMPIF_L)
}

/// The code of the adapter's second part before its first jump is patched.
pub open spec fn sequence_check_unpatched() -> Seq<u8> {
    array_test() + slot_bytes(SlotOp::LoadArg, 2) + seq![ISTYPE, STACKITEMTYPE_STRUCT]
        + placeholder_bytes(JMPIFNOT_L)
}

/// The code of the adapter's second part: an array goes on, a struct goes on, and anything
/// else takes a jump, left unpatched at the last five bytes, that leaves the adapter.
pub open spec fn sequence_check_bytes() -> Seq<u8> {
    patched(sequence_check_unpatched(), array_test().len() - 5, sequence_check_unpatched().len() as int)
}

/// The adapter's second part: anything but an array or a struct skips the rest of the adapter.
/// Returns the position of that skipping jump.
#[verifier::spinoff_prover]
#[verifier::rlimit(30)]
fn emit_adapter_sequence_check(script: &mut Vec<u8>) -> (r: Result<usize, TranslateError>)
    ensures
        r is Ok,
        final(script)@ == old(script)@ + sequence_check_bytes(),
        r matches Ok(p) ==> p + 5 == final(script)@.len(),
        sequence_check_bytes().len() <= 32,
{
    let ghost start = script@;
    emit_load_arg(script, 2)?;
    script.push(ISTYPE);
    script.push(STACKITEMTYPE_ARRAY);
    let data_is_seq_fixup = emit_jump_placeholder(script, JMPIF_L);
    emit_load_arg(script, 2)?;
    script.push(ISTYPE);
    script.push(STACKITEMTYPE_STRUCT);
    let not_array_fixup = emit_jump_placeholder(script, JMPIFNOT_L);
    let data_is_seq_label = script.len();
    proof {
        assert(script@ =~= start + sequence_check_unpatched());
        lemma_patched_shift(
            start,
            sequence_check_unpatched(),
            array_test().len() - 5,
            sequence_check_unpatched().len() as int,
        );
    }
    patch_jump(script, data_is_seq_fixup, data_is_seq_label)?;
    Ok(not_array_fixup)
}

/// The adapter's third part up to the test for a configuration with elements.
pub open spec fn packet_head(ds: int) -> Seq<u8> {
    slot_bytes(SlotOp::LoadArg, 2) + slot_bytes(SlotOp::StoreLocal, ds) + push_int_bytes(1)
        + slot_bytes(SlotOp::StoreArg, 2) + slot_bytes(SlotOp::LoadLocal, ds) + seq![SIZE]
        + push_int_bytes(0) + seq![GT] + placeholder_bytes(JMPIFNOT_L)
}

/// ... then the test for an integer element 0.
pub open spec fn packet_int_test(ds: int) -> Seq<u8> {
    packet_head(ds) + slot_bytes(SlotOp::LoadLocal, ds) + push_int_bytes(0) + seq![
        PICKITEM,
        DUP,
        ISTYPE,
        STACKITEMTYPE_INTEGER,
    ] + placeholder_bytes(JMPIF_L)
}

/// ... then the test for a byte string.
pub open spec fn packet_bytes_test(ds: int) -> Seq<u8> {
    packet_int_test(ds) + seq![DUP, ISTYPE, STACKITEMTYPE_BYTESTRING] + placeholder_bytes(
        JMPIFNOT_L,
    )
}

/// ... then the conversion, with the integer test's jump patched to follow it.
pub open spec fn packet_converted(ds: int) -> Seq<u8> {
    let a = packet_bytes_test(ds) + seq![CONVERT, STACKITEMTYPE_INTEGER];
    patched(a, packet_int_test(ds).len() - 5, a.len() as int)
}

/// ... then the test for a positive count.
pub open spec fn packet_positive_test(ds: int) -> Seq<u8> {
    packet_converted(ds) + seq![DUP] + push_int_bytes(0) + seq![GT] + placeholder_bytes(JMPIFNOT_L)
}

/// ... then the store of a positive count and the jump past the invalid case.
pub open spec fn packet_stored(ds: int) -> Seq<u8> {
    packet_positive_test(ds) + slot_bytes(SlotOp::StoreArg, 2) + placeholder_bytes(JMP_L)
}

/// ... then the invalid case, which the byte-string and positive tests jump to.
pub open spec fn packet_invalid(ds: int) -> Seq<u8> {
    let c = packet_stored(ds);
    patched(patched(c, packet_bytes_test(ds).len() - 5, c.len() as int), packet_positive_test(
        ds,
    ).len() - 5, c.len() as int) + seq![DROP] + push_int_bytes(ON_NEP17_INVALID_PACKET_COUNT as int)
        + slot_bytes(SlotOp::StoreArg, 2)
}

/// The code of the adapter's third part: the skipping jumps lead to the addition of the base.
pub open spec fn packet_count_bytes(ds: int) -> Seq<u8> {
    let e = packet_invalid(ds);
    patched(patched(e, packet_head(ds).len() - 5, e.len() as int), packet_stored(ds).len() - 5, e.len() as int)
        + slot_bytes(SlotOp::LoadArg, 2) + push_int_bytes(ON_NEP17_ADAPTER_BASE as int) + seq![ADD]
        + slot_bytes(SlotOp::StoreArg, 2)
}

/// Patching keeps the length.
proof fn lemma_patched_len(x: Seq<u8>, p: int, t: int)
    requires
        0 <= p,
        p + 5 <= x.len(),
    ensures
        patched(x, p, t).len() == x.len(),
{
    lemma_le_encode_len(twos(t - p, 4), 4);
}

/// The adapter's third part: keeps the configuration in local `data_slot` and sets argument 2
/// to `base + packets`, where the packet count is element 0 when it is a positive integer (or a
/// byte string that converts to one), 1 when the configuration is empty, and the invalid count
/// otherwise.
#[verifier::spinoff_prover]
#[verifier::rlimit(60)]
fn emit_adapter_packet_count(script: &mut Vec<u8>, data_slot: u32) -> (r: Result<(), TranslateError>)
    ensures
        r is Ok <==> data_slot <= 255,
        r is Ok ==> final(script)@ == old(script)@ + packet_count_bytes(data_slot as int),
        r is Ok ==> packet_count_bytes(data_slot as int).len() <= 128,
{
    let ghost start = script@;
    let ghost ds = data_slot as int;
    proof {
        lemma_pow256_values();
        lemma_patched_len(packet_bytes_test(ds) + seq![CONVERT, STACKITEMTYPE_INTEGER], packet_int_test(ds).len() - 5, (packet_bytes_test(ds) + seq![CONVERT, STACKITEMTYPE_INTEGER]).len() as int);
        let c = packet_stored(ds);
        lemma_patched_len(c, packet_bytes_test(ds).len() - 5, c.len() as int);
        lemma_patched_len(patched(c, packet_bytes_test(ds).len() - 5, c.len() as int), packet_positive_test(ds).len() - 5, c.len() as int);
        let e = packet_invalid(ds);
        lemma_patched_len(e, packet_head(ds).len() - 5, e.len() as int);
        lemma_patched_len(patched(e, packet_head(ds).len() - 5, e.len() as int), packet_stored(ds).len() - 5, e.len() as int);
    }
    emit_load_arg(script, 2)?;
    emit_store_local_slot(script, data_slot)?;
    emit_small_int(script, 1);
    emit_store_arg(script, 2)?;

    emit_load_local_slot(script, data_slot)?;
    script.push(SIZE);
    emit_small_int(script, 0);
    script.push(GT);
    let skip_packet_parse = emit_jump_placeholder(script, JMPIFNOT_L);
    proof {
        assert(script@ =~= start + packet_head(ds));
    }

    emit_load_local_slot(script, data_slot)?;
    emit_small_int(script, 0);
    script.push(PICKITEM);
    script.push(DUP);
    script.push(ISTYPE);
    script.push(STACKITEMTYPE_INTEGER);
    let packet_int_ready_fixup = emit_jump_placeholder(script, JMPIF_L);
    proof {
        assert(script@ =~= start + packet_int_test(ds));
    }
    script.push(DUP);
    script.push(ISTYPE);
    script.push(STACKITEMTYPE_BYTESTRING);
    let packet_drop_fixup = emit_jump_placeholder(script, JMPIFNOT_L);
    proof {
        assert(script@ =~= start + packet_bytes_test(ds));
    }
    script.push(CONVERT);
    script.push(STACKITEMTYPE_INTEGER);
    let packet_int_ready_label = script.len();
    proof {
        let a = packet_bytes_test(ds) + seq![CONVERT, STACKITEMTYPE_INTEGER];
        assert(script@ =~= start + a);
        lemma_patched_shift(start, a, packet_int_test(ds).len() - 5, a.len() as int);
    }
    patch_jump(script, packet_int_ready_fixup, packet_int_ready_label)?;
    proof {
        assert(script@ == start + packet_converted(ds));
    }

    script.push(DUP);
    emit_small_int(script, 0);
    script.push(GT);
    let packet_non_positive_fixup = emit_jump_placeholder(script, JMPIFNOT_L);
    proof {
        assert(script@ =~= start + packet_positive_test(ds));
    }
    emit_store_arg(script, 2)?;
    let packet_done_fixup = emit_jump_placeholder(script, JMP_L);
    proof {
        assert(script@ =~= start + packet_stored(ds));
    }

    let packet_drop_label = script.len();
    proof {
        let c = packet_stored(ds);
        lemma_patched_shift(start, c, packet_bytes_test(ds).len() - 5, c.len() as int);
    }
    patch_jump(script, packet_drop_fixup, packet_drop_label)?;
    proof {
        let c = packet_stored(ds);
        lemma_patched_shift(
            start,
            patched(c, packet_bytes_test(ds).len() - 5, c.len() as int),
            packet_positive_test(ds).len() - 5,
            c.len() as int,
        );
    }
    patch_jump(script, packet_non_positive_fixup, packet_drop_label)?;
    script.push(DROP);
    emit_small_int(script, ON_NEP17_INVALID_PACKET_COUNT);
    emit_store_arg(script, 2)?;
    proof {
        assert(script@ =~= start + packet_invalid(ds));
    }

    let packet_done_label = script.len();
    proof {
        let e = packet_invalid(ds);
        lemma_patched_shift(start, e, packet_head(ds).len() - 5, e.len() as int);
    }
    patch_jump(script, skip_packet_parse, packet_done_label)?;
    proof {
        let e = packet_invalid(ds);
        lemma_patched_shift(
            start,
            patched(e, packet_head(ds).len() - 5, e.len() as int),
            packet_stored(ds).len() - 5,
            e.len() as int,
        );
    }
    patch_jump(script, packet_done_fixup, packet_done_label)?;

    emit_load_arg(script, 2)?;
    emit_small_int(script, ON_NEP17_ADAPTER_BASE);
    script.push(ADD);
    emit_store_arg(script, 2)?;
    proof {
        assert(script@ =~= start + packet_count_bytes(ds));
    }
    Ok(())
}

/// The adapter's last part up to the test for a configuration with a sixth element.
pub open spec fn pool_head(ds: int) -> Seq<u8> {
    slot_bytes(SlotOp::LoadLocal, ds) + seq![SIZE] + push_int_bytes(5) + seq![GT]
        + placeholder_bytes(JMPIFNOT_L)
}

/// ... then the test for an integer element 5.
pub open spec fn pool_int_test(ds: int) -> Seq<u8> {
    pool_head(ds) + slot_bytes(SlotOp::LoadLocal, ds) + push_int_bytes(5) + seq![
        PICKITEM,
        DUP,
        ISTYPE,
        STACKITEMTYPE_INTEGER,
    ] + placeholder_bytes(JMPIF_L)
}

/// ... then the test for a byte string.
pub open spec fn pool_bytes_test(ds: int) -> Seq<u8> {
    pool_int_test(ds) + seq![DUP, ISTYPE, STACKITEMTYPE_BYTESTRING] + placeholder_bytes(JMPIFNOT_L)
}

/// ... then the conversion, with the integer test's jump patched to follow it.
pub open spec fn pool_converted(ds: int) -> Seq<u8> {
    let a = pool_bytes_test(ds) + seq![CONVERT, STACKITEMTYPE_INTEGER];
    patched(a, pool_int_test(ds).len() - 5, a.len() as int)
}

/// ... then the test for kind 1 (a pool).
pub open spec fn pool_is_pool_test(ds: int) -> Seq<u8> {
    pool_converted(ds) + seq![DUP] + push_int_bytes(1) + seq![EQUAL] + placeholder_bytes(JMPIF_L)
}

/// ... then the test for kind 0 (spreading).
pub open spec fn pool_is_spread_test(ds: int) -> Seq<u8> {
    pool_is_pool_test(ds) + seq![DUP] + push_int_bytes(0) + seq![EQUAL] + placeholder_bytes(JMPIF_L)
}

/// ... then an invalid kind, which marks the configuration invalid.
pub open spec fn pool_invalid(ds: int) -> Seq<u8> {
    pool_is_spread_test(ds) + seq![DROP] + push_int_bytes(
        (ON_NEP17_ADAPTER_BASE + ON_NEP17_INVALID_PACKET_COUNT) as int,
    ) + slot_bytes(SlotOp::StoreArg, 2) + placeholder_bytes(JMP_L)
}

/// ... then a pool, which the kind-1 test jumps to: the value is negated.
pub open spec fn pool_negated(ds: int) -> Seq<u8> {
    let b = pool_invalid(ds);
    patched(b, pool_is_pool_test(ds).len() - 5, b.len() as int) + seq![DROP] + slot_bytes(
        SlotOp::LoadArg,
        2,
    ) + seq![NEGATE] + slot_bytes(SlotOp::StoreArg, 2) + placeholder_bytes(JMP_L)
}

/// ... then spreading, which the kind-0 test jumps to: the value is kept.
pub open spec fn pool_spread(ds: int) -> Seq<u8> {
    let c = pool_negated(ds);
    patched(c, pool_is_spread_test(ds).len() - 5, c.len() as int) + seq![DROP] + placeholder_bytes(
        JMP_L,
    )
}

/// ... then a kind that is no integer, which the byte-string test jumps to.
pub open spec fn pool_not_integer(ds: int) -> Seq<u8> {
    let d = pool_spread(ds);
    patched(d, pool_bytes_test(ds).len() - 5, d.len() as int) + seq![DROP] + push_int_bytes(
        (ON_NEP17_ADAPTER_BASE + ON_NEP17_INVALID_PACKET_COUNT) as int,
    ) + slot_bytes(SlotOp::StoreArg, 2) + placeholder_bytes(JMP_L)
}

/// The code of the adapter's last part: every skipping jump leads to its end.
pub open spec fn pool_kind_bytes(ds: int) -> Seq<u8> {
    let e = pool_not_integer(ds);
    let end = e.len() as int;
    patched(
        patched(
            patched(
                patched(patched(e, pool_head(ds).len() - 5, end), pool_invalid(ds).len() - 5, end),
                pool_negated(ds).len() - 5,
                end,
            ),
            pool_spread(ds).len() - 5,
            end,
        ),
        e.len() - 5,
        end,
    )
}

/// The adapter's last part: element 5 of the configuration selects the distribution, 1 for a
/// pool (the value is negated), 0 for spreading (kept); any other kind, or one that is not an
/// integer, marks the configuration invalid.
#[verifier::spinoff_prover]
#[verifier::rlimit(60)]
fn emit_adapter_pool_kind(script: &mut Vec<u8>, data_slot: u32) -> (r: Result<(), TranslateError>)
    requires
        data_slot <= 255,
    ensures
        r is Ok,
        final(script)@ == old(script)@ + pool_kind_bytes(data_slot as int),
        final(script)@.len() == old(script)@.len() + 2 * slot_bytes(
            SlotOp::LoadLocal,
            data_slot as int,
        ).len() + 83,
{
    let ghost start = script@;
    let ghost ds = data_slot as int;
    proof {
        lemma_pow256_values();
        lemma_le_encode_len(twos(ON_NEP17_ADAPTER_BASE + ON_NEP17_INVALID_PACKET_COUNT, 4), 4);
        let a = pool_bytes_test(ds) + seq![CONVERT, STACKITEMTYPE_INTEGER];
        lemma_patched_len(a, pool_int_test(ds).len() - 5, a.len() as int);
        let b = pool_invalid(ds);
        lemma_patched_len(b, pool_is_pool_test(ds).len() - 5, b.len() as int);
        let c = pool_negated(ds);
        lemma_patched_len(c, pool_is_spread_test(ds).len() - 5, c.len() as int);
        let d = pool_spread(ds);
        lemma_patched_len(d, pool_bytes_test(ds).len() - 5, d.len() as int);
        let e = pool_not_integer(ds);
        let end = e.len() as int;
        let e1 = patched(e, pool_head(ds).len() - 5, end);
        lemma_patched_len(e, pool_head(ds).len() - 5, end);
        let e2 = patched(e1, pool_invalid(ds).len() - 5, end);
        lemma_patched_len(e1, pool_invalid(ds).len() - 5, end);
        let e3 = patched(e2, pool_negated(ds).len() - 5, end);
        lemma_patched_len(e2, pool_negated(ds).len() - 5, end);
        let e4 = patched(e3, pool_spread(ds).len() - 5, end);
        lemma_patched_len(e3, pool_spread(ds).len() - 5, end);
        lemma_patched_len(e4, e.len() - 5, end);
    }
    emit_load_local_slot(script, data_slot)?;
    script.push(SIZE);
    emit_small_int(script, 5);
    script.push(GT);
    let skip_type_parse = emit_jump_placeholder(script, JMPIFNOT_L);
    proof {
        assert(script@ =~= start + pool_head(ds));
    }

    emit_load_local_slot(script, data_slot)?;
    emit_small_int(script, 5);
    script.push(PICKITEM);
    script.push(DUP);
    script.push(ISTYPE);
    script.push(STACKITEMTYPE_INTEGER);
    let type_int_ready_fixup = emit_jump_placeholder(script, JMPIF_L);
    proof {
        assert(script@ =~= start + pool_int_test(ds));
    }
    script.push(DUP);
    script.push(ISTYPE);
    script.push(STACKITEMTYPE_BYTESTRING);
    let type_drop_fixup = emit_jump_placeholder(script, JMPIFNOT_L);
    proof {
        assert(script@ =~= start + pool_bytes_test(ds));
    }
    script.push(CONVERT);
    script.push(STACKITEMTYPE_INTEGER);
    let type_int_ready_label = script.len();
    proof {
        let a = pool_bytes_test(ds) + seq![CONVERT, STACKITEMTYPE_INTEGER];
        assert(script@ =~= start + a);
        lemma_patched_shift(start, a, pool_int_test(ds).len() - 5, a.len() as int);
    }
    patch_jump(script, type_int_ready_fixup, type_int_ready_label)?;

    script.push(DUP);
    emit_small_int(script, 1);
    script.push(EQUAL);
    let type_is_pool_fixup = emit_jump_placeholder(script, JMPIF_L);
    proof {
        assert(script@ =~= start + pool_is_pool_test(ds));
    }
    script.push(DUP);
    emit_small_int(script, 0);
    script.push(EQUAL);
    let type_is_spread_fixup = emit_jump_placeholder(script, JMPIF_L);
    proof {
        assert(script@ =~= start + pool_is_spread_test(ds));
    }

    script.push(DROP);
    emit_small_int(script, ON_NEP17_ADAPTER_BASE + ON_NEP17_INVALID_PACKET_COUNT);
    emit_store_arg(script, 2)?;
    let type_invalid_done_fixup = emit_jump_placeholder(script, JMP_L);
    proof {
        assert(script@ =~= start + pool_invalid(ds));
    }

    let type_is_pool_label = script.len();
    proof {
        let b = pool_invalid(ds);
        lemma_patched_shift(start, b, pool_is_pool_test(ds).len() - 5, b.len() as int);
    }
    patch_jump(script, type_is_pool_fixup, type_is_pool_label)?;
    script.push(DROP);
    emit_load_arg(script, 2)?;
    script.push(NEGATE);
    emit_store_arg(script, 2)?;
    let type_pool_done_fixup = emit_jump_placeholder(script, JMP_L);
    proof {
        assert(script@ =~= start + pool_negated(ds));
    }

    let type_is_spread_label = script.len();
    proof {
        let c = pool_negated(ds);
        lemma_patched_shift(start, c, pool_is_spread_test(ds).len() - 5, c.len() as int);
    }
    patch_jump(script, type_is_spread_fixup, type_is_spread_label)?;
    script.push(DROP);
    let type_spread_done_fixup = emit_jump_placeholder(script, JMP_L);
    proof {
        assert(script@ =~= start + pool_spread(ds));
    }

    let type_drop_label = script.len();
    proof {
        let d = pool_spread(ds);
        lemma_patched_shift(start, d, pool_bytes_test(ds).len() - 5, d.len() as int);
    }
    patch_jump(script, type_drop_fixup, type_drop_label)?;
    script.push(DROP);
    emit_small_int(script, ON_NEP17_ADAPTER_BASE + ON_NEP17_INVALID_PACKET_COUNT);
    emit_store_arg(script, 2)?;
    let type_drop_done_fixup = emit_jump_placeholder(script, JMP_L);
    proof {
        assert(script@ =~= start + pool_not_integer(ds));
    }

    let type_done_label = script.len();
    let ghost e = pool_not_integer(ds);
    let ghost end = e.len() as int;
    proof {
        lemma_patched_shift(start, e, pool_head(ds).len() - 5, end);
    }
    patch_jump(script, skip_type_parse, type_done_label)?;
    proof {
        lemma_patched_shift(start, patched(e, pool_head(ds).len() - 5, end), pool_invalid(ds).len() - 5, end);
    }
    patch_jump(script, type_invalid_done_fixup, type_done_label)?;
    proof {
        lemma_patched_shift(
            start,
            patched(patched(e, pool_head(ds).len() - 5, end), pool_invalid(ds).len() - 5, end),
            pool_negated(ds).len() - 5,
            end,
        );
    }
    patch_jump(script, type_pool_done_fixup, type_done_label)?;
    proof {
        lemma_patched_shift(
            start,
            patched(
                patched(patched(e, pool_head(ds).len() - 5, end), pool_invalid(ds).len() - 5, end),
                pool_negated(ds).len() - 5,
                end,
            ),
            pool_spread(ds).len() - 5,
            end,
        );
    }
    patch_jump(script, type_spread_done_fixup, type_done_label)?;
    proof {
        lemma_patched_shift(
            start,
            patched(
                patched(
                    patched(patched(e, pool_head(ds).len() - 5, end), pool_invalid(ds).len() - 5, end),
                    pool_negated(ds).len() - 5,
                    end,
                ),
                pool_spread(ds).len() - 5,
                end,
            ),
            e.len() - 5,
            end,
        );
    }
    patch_jump(script, type_drop_done_fixup, type_done_label)?;
    Ok(())
}

/// The code of the `onNEP17Payment` adapter for the free local slot `ds`: its four parts,
/// with the jumps that skip the rest leading to its end.
pub open spec fn payment_adapter_bytes(ds: int) -> Seq<u8> {
    let body = null_check_bytes() + sequence_check_bytes() + packet_count_bytes(ds) + pool_kind_bytes(
        ds,
    );
    let end = body.len() as int;
    patched(
        patched(body, null_check_bytes().len() + sequence_check_bytes().len() - 5, end),
        null_check_bytes().len() - 5,
        end,
    )
}

/// Canonicalises the `data` argument of `onNEP17Payment` (argument 2) to an integer: `null`
/// becomes 0; an array or struct configuration becomes `base + packets` for spreading and
/// `-(base + packets)` for a pool, with an invalid configuration marked by packet count 101;
/// any other value is kept. `base_temp_slot` is a free local slot. The adapter is appended to
/// `script`, whose earlier bytes stay as they are.
#[verifier::spinoff_prover]
#[verifier::rlimit(80)]
pub(crate) fn emit_on_nep17_payment_config_adapter(script: &mut Vec<u8>, base_temp_slot: u32) -> (r:
    Result<(), TranslateError>)
    ensures
        r is Ok <==> base_temp_slot <= 255,
        r is Ok ==> final(script)@ == old(script)@ + payment_adapter_bytes(base_temp_slot as int),
        r is Ok ==> final(script)@.len() > old(script)@.len(),
        r is Ok ==> final(script)@.subrange(0, old(script)@.len() as int) == old(script)@,
{
    let ghost start = script@;
    let ghost ds = base_temp_slot as int;
    let data_slot = base_temp_slot;
    let adapter_end_fixup = emit_adapter_null_check(script)?;
    let not_array_fixup = emit_adapter_sequence_check(script)?;
    emit_adapter_packet_count(script, data_slot)?;
    emit_adapter_pool_kind(script, data_slot)?;
    let adapter_end_label = script.len();
    let ghost n = null_check_bytes();
    let ghost q = sequence_check_bytes();
    let ghost body = n + q + packet_count_bytes(ds) + pool_kind_bytes(ds);
    let ghost end = body.len() as int;
    proof {
        assert(script@ =~= start + body);
        lemma_patched_shift(start, body, n.len() + q.len() - 5, end);
        lemma_patched_len(body, n.len() + q.len() - 5, end);
        lemma_patched_shift(start, patched(body, n.len() + q.len() - 5, end), n.len() - 5, end);
        lemma_patched_len(patched(body, n.len() + q.len() - 5, end), n.len() - 5, end);
    }
    patch_jump(script, not_array_fixup, adapter_end_label)?;
    patch_jump(script, adapter_end_fixup, adapter_end_label)?;
    proof {
        assert(script@.subrange(0, start.len() as int) =~= start);
    }
    Ok(())
}


/// The manifest type of a value: `Integer` for i32 and i64.
pub fn wasm_val_type_to_manifest(kind: ValKind) -> (r: Result<&'static str, TranslateError>)
    ensures
        r is Ok <==> is_integer(kind),
        r matches Ok(name) ==> name@ == "Integer"@,
{
    if is_integer_kind(kind) {
        Ok("Integer")
    } else {
        Err(TranslateError::UnsupportedType { kind })
    }
}

/// Pops an operand; in unreachable code an empty stack yields an unknown value.
pub fn pop_value_maybe_unreachable(stack: &mut Vec<StackValue>, is_unreachable: bool) -> (r: Result<
    StackValue,
    TranslateError,
>)
    ensures
        old(stack)@.len() > 0 ==> r == Ok::<StackValue, TranslateError>(old(stack)@.last())
            && final(stack)@ == old(stack)@.drop_last(),
        old(stack)@.len() == 0 ==> final(stack)@ == old(stack)@ && (r is Ok <==> is_unreachable),
        r is Err ==> r == Err::<StackValue, TranslateError>(TranslateError::StackUnderflow),
{
    match stack.pop() {
        Some(v) => Ok(v),
        None => {
            if is_unreachable {
                Ok(StackValue::unknown())
            } else {
                Err(TranslateError::StackUnderflow)
            }
        },
    }
}

/// Sets the operand stack to `height` values, padding with unknown values.
pub fn set_stack_height_polymorphic(stack: &mut Vec<StackValue>, height: usize)
    ensures
        final(stack)@.len() == height,
        forall|i: int| 0 <= i < height && i < old(stack)@.len() ==> final(stack)@[i] == old(stack)@[i],
        forall|i: int|
            old(stack)@.len() <= i < height ==> (#[trigger] final(stack)@[i]).const_value is None
                && final(stack)@[i].bytecode_start is None,
{
    if stack.len() >= height {
        stack.truncate(height);
        return;
    }
    while stack.len() < height
        invariant
            old(stack)@.len() <= stack@.len() <= height,
            forall|i: int| 0 <= i < old(stack)@.len() ==> stack@[i] == old(stack)@[i],
            forall|i: int|
                old(stack)@.len() <= i < stack@.len() ==> (#[trigger] stack@[i]).const_value is None
                    && stack@[i].bytecode_start is None,
        decreases height - stack@.len(),
    {
        stack.push(StackValue::unknown());
    }
}

/// Pushes the unknown result of a call.
pub fn push_placeholder_value(stack: &mut Vec<StackValue>)
    ensures
        final(stack)@ == old(stack)@.push(StackValue { const_value: None, bytecode_start: None }),
{
    stack.push(StackValue::unknown());
}

/// The type index of function `index` of a module: that of the import, or that of the defined
/// function; `None` when there is no such function.
pub open spec fn function_type_index(module: WasmModule, index: u32) -> Option<u32> {
    let n = module.imports@.len();
    if index < n {
        Some(module.imports@[index as int].type_index)
    } else if index - n < module.functions@.len() {
        Some(module.functions@[index - n])
    } else {
        None
    }
}

/// The signature of function `function_index`, and whether it is imported.
pub fn get_function_type_info<'a>(function_index: u32, module: &'a WasmModule) -> (r: Result<
    (bool, &'a FuncSig),
    TranslateError,
>)
    ensures
        r is Ok <==> ({
            let n = module.imports@.len();
            let ti = if function_index < n {
                Some(module.imports@[function_index as int].type_index)
            } else if function_index - n < module.functions@.len() {
                Some(module.functions@[function_index - n])
            } else {
                None
            };
            ti matches Some(t) && t < module.types@.len()
        }),
        r matches Ok((imported, sig)) ==> {
            let n = module.imports@.len();
            let t = if function_index < n {
                module.imports@[function_index as int].type_index
            } else {
                module.functions@[function_index - n]
            };
            &&& imported == (function_index < n)
            &&& *sig == module.types@[t as int]
        },
{
    let n = module.imports.len();
    let type_index = if (function_index as usize) < n {
        module.imports[function_index as usize].type_index
    } else {
        let defined_index = (function_index as usize) - n;
        if defined_index >= module.functions.len() {
            return Err(TranslateError::MissingFunctionType { index: function_index as usize });
        }
        module.functions[defined_index]
    };
    if type_index as usize >= module.types.len() {
        return Err(TranslateError::InvalidTypeIndex { index: type_index });
    }
    Ok(((function_index as usize) < n, &module.types[type_index as usize]))
}

/// Removing the top value keeps the constants' positions.
proof fn lemma_values_after_drop_last(s: Seq<StackValue>, n: int)
    requires
        values_after(s, n),
        s.len() > 0,
    ensures
        values_after(s.drop_last(), n),
{
    assert forall|i: int|
        0 <= i < s.drop_last().len() && (#[trigger] s.drop_last()[i]).bytecode_start is Some implies n
        <= s.drop_last()[i].bytecode_start->0 by {
        assert(s.drop_last()[i] == s[i]);
    }
}

/// Pushing a value whose constant, if any, was pushed at or after `n`.
proof fn lemma_values_after_push(s: Seq<StackValue>, v: StackValue, n: int)
    requires
        values_after(s, n),
        v.bytecode_start is Some ==> n <= v.bytecode_start->0,
    ensures
        values_after(s.push(v), n),
{
    assert forall|i: int| 0 <= i < s.push(v).len() && (#[trigger] s.push(v)[i]).bytecode_start is Some implies n
        <= s.push(v)[i].bytecode_start->0 by {
        if i < s.len() {
            assert(s.push(v)[i] == s[i]);
        }
    }
}

/// Pushing a frame whose jumps lie at or after `n`.
proof fn lemma_frames_after_push(frames: Seq<ControlFrame>, f: ControlFrame, n: int)
    requires
        frames_after(frames, n),
        frame_after(f, n),
    ensures
        frames_after(frames.push(f), n),
{
    assert forall|i: int| 0 <= i < frames.push(f).len() implies #[trigger] frame_after(
        frames.push(f)[i],
        n,
    ) by {
        if i < frames.len() {
            assert(frames.push(f)[i] == frames[i]);
        }
    }
}

/// Popping a frame keeps the others and yields one whose jumps lie at or after `n`.
proof fn lemma_frames_after_pop(frames: Seq<ControlFrame>, n: int)
    requires
        frames_after(frames, n),
        frames.len() > 0,
    ensures
        frames_after(frames.drop_last(), n),
        frame_after(frames.last(), n),
{
    assert forall|i: int| 0 <= i < frames.drop_last().len() implies #[trigger] frame_after(
        frames.drop_last()[i],
        n,
    ) by {
        assert(frames.drop_last()[i] == frames[i]);
        assert(frame_after(frames[i], n));
    }
    assert(frame_after(frames[frames.len() - 1], n));
}

/// The stack padded or cut to a height keeps the constants' positions.
proof fn lemma_values_after_height(old_stack: Seq<StackValue>, new_stack: Seq<StackValue>, n: int)
    requires
        values_after(old_stack, n),
        forall|i: int| 0 <= i < new_stack.len() && i < old_stack.len() ==> new_stack[i] == old_stack[i],
        forall|i: int|
            old_stack.len() <= i < new_stack.len() ==> (#[trigger] new_stack[i]).bytecode_start is None,
    ensures
        values_after(new_stack, n),
{
    assert forall|i: int| 0 <= i < new_stack.len() && (#[trigger] new_stack[i]).bytecode_start is Some implies n
        <= new_stack[i].bytecode_start->0 by {
        if i < old_stack.len() {
            assert(new_stack[i] == old_stack[i]);
        }
    }
}

/// The constants, comparisons and integer operators.
///
/// Code before position `n`, below every constant on the operand stack, is kept.
#[verifier::spinoff_prover]
#[verifier::rlimit(60)]
fn translate_numeric(
    op: &WasmOp,
    script: &mut Vec<u8>,
    stack: &mut Vec<StackValue>,
    Ghost(n): Ghost<int>,
) -> (r: Result<bool, TranslateError>)
    requires
        0 <= n <= old(script)@.len(),
        values_after(old(stack)@, n),
    ensures
        r is Ok ==> keeps_prefix(old(script)@, final(script)@, n) && values_after(
            final(stack)@,
            n,
        ),
        match *op {
            WasmOp::Nop => r == Ok::<bool, TranslateError>(true) && final(script)@ == old(script)@
                && final(stack)@ == old(stack)@,
            WasmOp::I32Const(v) => r == Ok::<bool, TranslateError>(true) && final(script)@ == old(
                script,
            )@ + push_int_bytes(v as int) && final(stack)@ == old(stack)@.push(
                StackValue { const_value: Some(v as i128), bytecode_start: Some(old(script)@.len() as usize) },
            ),
            WasmOp::I64Const(v) => r == Ok::<bool, TranslateError>(true) && final(script)@ == old(
                script,
            )@ + push_int_bytes(v as int) && final(stack)@ == old(stack)@.push(
                StackValue { const_value: Some(v as i128), bytecode_start: Some(old(script)@.len() as usize) },
            ),
            WasmOp::Eqz { .. } => (r is Ok <==> old(stack)@.len() > 0) && (r is Ok ==> ({
                let v = old(stack)@.last();
                &&& r == Ok::<bool, TranslateError>(true)
                &&& final(stack)@.drop_last() == old(stack)@.drop_last()
                &&& final(stack)@.len() == old(stack)@.len()
                &&& final(stack)@.last().const_value == (if v.const_value is Some
                    && v.bytecode_start is Some {
                    Some(if v.const_value->0 == 0 { 1i128 } else { 0i128 })
                } else {
                    None::<i128>
                })
            })),
            WasmOp::Compare { wide, kind } => (r is Ok <==> old(stack)@.len() >= 2) && (r is Ok ==> r
                == Ok::<bool, TranslateError>(true) && final(stack)@.len() == old(stack)@.len() - 1
                && final(stack)@.drop_last() == old(stack)@.subrange(
                0,
                old(stack)@.len() - 2,
            ) && (final(script)@, final(stack)@.last()) == compare_outcome(
                kind,
                width_bits(wide),
                old(script)@,
                old(stack)@[old(stack)@.len() - 2],
                old(stack)@[old(stack)@.len() - 1],
            )),
            WasmOp::Arith { wide, kind } => (r is Ok <==> old(stack)@.len() >= 2) && (r is Ok ==> r
                == Ok::<bool, TranslateError>(true) && final(stack)@.len() == old(stack)@.len() - 1
                && final(stack)@.drop_last() == old(stack)@.subrange(
                0,
                old(stack)@.len() - 2,
            ) && (final(script)@, final(stack)@.last()) == arith_outcome(
                kind,
                width_bits(wide),
                old(script)@,
                old(stack)@[old(stack)@.len() - 2],
                old(stack)@[old(stack)@.len() - 1],
            )),
            _ => r == Ok::<bool, TranslateError>(false) && final(script)@ == old(script)@
                && final(stack)@ == old(stack)@,
        },
{
    proof {
        assert(old(script)@.subrange(0, n) =~= old(script)@.subrange(0, n));
    }
    match op {
        WasmOp::Nop => Ok(true),
        WasmOp::I32Const(v) => {
            proof {
                assert(script.len() == script@.len());
            }
            let entry = emit_push_int(script, *v as i128);
            stack.push(entry);
            proof {
                lemma_keeps_prefix_append(old(script)@, push_int_bytes(*v as int), n);
                lemma_values_after_push(old(stack)@, entry, n);
            }
            Ok(true)
        },
        WasmOp::I64Const(v) => {
            proof {
                assert(script.len() == script@.len());
            }
            let entry = emit_push_int(script, *v as i128);
            stack.push(entry);
            proof {
                lemma_keeps_prefix_append(old(script)@, push_int_bytes(*v as int), n);
                lemma_values_after_push(old(stack)@, entry, n);
            }
            Ok(true)
        },
        WasmOp::Eqz { .. } => {
            let value = pop_value(stack)?;
            proof {
                lemma_values_after_drop_last(old(stack)@, n);
                assert(old(stack)@[old(stack)@.len() - 1] == value);
            }
            let result = emit_eqz(script, value);
            proof {
                lemma_result_keeps(old(script)@, script@, value, value, result, n);
                lemma_values_after_push(stack@, result, n);
            }
            stack.push(result);
            Ok(true)
        },
        WasmOp::Compare { wide, kind } => {
            let bits: u32 = if *wide { 64 } else { 32 };
            let rhs = pop_value(stack)?;
            let lhs = pop_value(stack)?;
            let result = match kind {
                CmpKind::Eq => emit_binary_op(script, BinOp::Eq, bits, lhs, rhs),
                CmpKind::Ne => emit_binary_op(script, BinOp::Ne, bits, lhs, rhs),
                CmpKind::LtS => emit_signed_compare(script, lhs, rhs, bits, CompareOp::Lt),
                CmpKind::LtU => emit_unsigned_compare(script, lhs, rhs, bits, CompareOp::Lt),
                CmpKind::GtS => emit_signed_compare(script, lhs, rhs, bits, CompareOp::Gt),
                CmpKind::GtU => emit_unsigned_compare(script, lhs, rhs, bits, CompareOp::Gt),
                CmpKind::LeS => emit_signed_compare(script, lhs, rhs, bits, CompareOp::Le),
                CmpKind::LeU => emit_unsigned_compare(script, lhs, rhs, bits, CompareOp::Le),
                CmpKind::GeS => emit_signed_compare(script, lhs, rhs, bits, CompareOp::Ge),
                CmpKind::GeU => emit_unsigned_compare(script, lhs, rhs, bits, CompareOp::Ge),
            };
            proof {
                lemma_values_after_drop_last(old(stack)@, n);
                lemma_values_after_drop_last(old(stack)@.drop_last(), n);
                assert(old(stack)@[old(stack)@.len() - 1] == rhs);
                assert(old(stack)@.drop_last()[old(stack)@.len() - 2] == lhs);
                lemma_result_keeps(old(script)@, script@, lhs, rhs, result, n);
                lemma_values_after_push(stack@, result, n);
            }
            stack.push(result);
            Ok(true)
        },
        WasmOp::Arith { wide, kind } => {
            let bits: u32 = if *wide { 64 } else { 32 };
            let rhs = pop_value(stack)?;
            let lhs = pop_value(stack)?;
            let result = match kind {
                ArithKind::Add => emit_binary_op(script, BinOp::Add, bits, lhs, rhs),
                ArithKind::Sub => emit_binary_op(script, BinOp::Sub, bits, lhs, rhs),
                ArithKind::Mul => emit_binary_op(script, BinOp::Mul, bits, lhs, rhs),
                ArithKind::And => emit_binary_op(script, BinOp::And, bits, lhs, rhs),
                ArithKind::Or => emit_binary_op(script, BinOp::Or, bits, lhs, rhs),
                ArithKind::Xor => emit_binary_op(script, BinOp::Xor, bits, lhs, rhs),
                ArithKind::Shl => emit_binary_op(script, BinOp::Shl, bits, lhs, rhs),
                ArithKind::DivS => emit_binary_op(script, BinOp::DivS, bits, lhs, rhs),
                ArithKind::RemS => emit_binary_op(script, BinOp::RemS, bits, lhs, rhs),
                ArithKind::DivU => emit_unsigned_binary_op(script, UnsignedOp::Div, lhs, rhs, bits),
                ArithKind::RemU => emit_unsigned_binary_op(script, UnsignedOp::Rem, lhs, rhs, bits),
                ArithKind::ShrS => emit_shift_right(script, lhs, rhs, bits, ShiftKind::Arithmetic),
                ArithKind::ShrU => emit_shift_right(script, lhs, rhs, bits, ShiftKind::Logical),
                ArithKind::Rotl => emit_rotate(script, lhs, rhs, bits, true),
                ArithKind::Rotr => emit_rotate(script, lhs, rhs, bits, false),
            };
            proof {
                lemma_values_after_drop_last(old(stack)@, n);
                lemma_values_after_drop_last(old(stack)@.drop_last(), n);
                assert(old(stack)@[old(stack)@.len() - 1] == rhs);
                assert(old(stack)@.drop_last()[old(stack)@.len() - 2] == lhs);
                lemma_result_keeps(old(script)@, script@, lhs, rhs, result, n);
                lemma_values_after_push(stack@, result, n);
            }
            stack.push(result);
            Ok(true)
        },
        _ => Ok(false),
    }
}

/// An operator either appends to the script, or replaces the constant pushed for one of its
/// operands by the folded constant.
proof fn lemma_result_keeps(
    before: Seq<u8>,
    after: Seq<u8>,
    lhs: StackValue,
    rhs: StackValue,
    result: StackValue,
    n: int,
)
    requires
        0 <= n <= before.len(),
        lhs.bytecode_start is Some ==> n <= lhs.bytecode_start->0,
        rhs.bytecode_start is Some ==> n <= rhs.bytecode_start->0,
        result.bytecode_start is None ==> keeps_prefix(before, after, before.len() as int),
        result.bytecode_start is Some ==> keeps_prefix(
            before,
            after,
            result.bytecode_start->0 as int,
        ) && (result.bytecode_start->0 == before.len() || result.bytecode_start
            == lhs.bytecode_start || result.bytecode_start == rhs.bytecode_start),
    ensures
        keeps_prefix(before, after, n),
        result.bytecode_start is Some ==> n <= result.bytecode_start->0,
{
    if result.bytecode_start is None {
        lemma_keeps_prefix_shorter(before, after, before.len() as int, n);
    } else {
        lemma_keeps_prefix_shorter(before, after, result.bytecode_start->0 as int, n);
    }
}

/// A new frame for a construct entered at the current position.
fn new_frame(
    kind: ControlKind,
    stack_height: usize,
    result_count: usize,
    start_offset: usize,
    if_false_fixup: Option<usize>,
    entry_reachable: bool,
) -> (f: ControlFrame)
    ensures
        f.kind == kind,
        f.stack_height == stack_height,
        f.result_count == result_count,
        f.start_offset == start_offset,
        f.end_fixups@.len() == 0,
        f.if_false_fixup == if_false_fixup,
        !f.has_else,
        f.entry_reachable == entry_reachable,
        !f.end_reachable_from_branch,
        f.if_then_end_reachable is None,
{
    ControlFrame {
        kind,
        stack_height,
        result_count,
        start_offset,
        end_fixups: Vec::new(),
        if_false_fixup,
        has_else: false,
        entry_reachable,
        end_reachable_from_branch: false,
        if_then_end_reachable: None,
    }
}

/// Whether every jump recorded in a frame can be pointed at the end, at position `len`.
pub open spec fn end_patches_ok(f: ControlFrame, len: int) -> bool {
    &&& (f.if_false_fixup is Some ==> f.if_false_fixup->0 + 5 <= len && displacement_fits(
        f.if_false_fixup->0 as int,
        len,
    ))
    &&& forall|k: int|
        0 <= k < f.end_fixups@.len() ==> #[trigger] f.end_fixups@[k] + 5 <= len
            && displacement_fits(f.end_fixups@[k] as int, len)
}

/// `else`: closes the `then` arm of the innermost `if`.
#[verifier::spinoff_prover]
#[verifier::rlimit(30)]
fn translate_else(
    script: &mut Vec<u8>,
    stack: &mut Vec<StackValue>,
    control_stack: &mut Vec<ControlFrame>,
    is_unreachable: &mut bool,
    Ghost(n): Ghost<int>,
) -> (r: Result<(), TranslateError>)
    requires
        0 <= n <= old(script)@.len(),
        values_after(old(stack)@, n),
        frames_after(old(control_stack)@, n),
    ensures
        r is Ok ==> keeps_prefix(old(script)@, final(script)@, n) && values_after(
            final(stack)@,
            n,
        ) && frames_after(final(control_stack)@, n),
        old(control_stack)@.len() == 0 ==> r == Err::<(), TranslateError>(
            TranslateError::ElseWithoutIf,
        ),
        old(control_stack)@.len() > 0 ==> ({
            let f = old(control_stack)@.last();
            let len = old(script)@.len() as int;
            &&& f.kind != ControlKind::If ==> r == Err::<(), TranslateError>(
                TranslateError::ElseOutsideIf,
            )
            &&& (r is Ok <==> (f.kind == ControlKind::If && (f.if_false_fixup is Some ==> (
            f.if_false_fixup->0 + 5 <= len && displacement_fits(f.if_false_fixup->0 as int, len)))
                && (!*old(is_unreachable) ==> f.stack_height + f.result_count <= usize::MAX
                && old(stack)@.len() >= f.stack_height + f.result_count)))
            &&& r is Ok ==> ({
                let g = final(control_stack)@.last();
                &&& final(control_stack)@.len() == old(control_stack)@.len()
                &&& final(control_stack)@.drop_last() == old(control_stack)@.drop_last()
                &&& g.kind == ControlKind::If && g.has_else && g.if_false_fixup is None
                &&& g.stack_height == f.stack_height && g.result_count == f.result_count
                &&& g.entry_reachable == f.entry_reachable
                &&& g.end_reachable_from_branch == f.end_reachable_from_branch
                &&& g.end_fixups@ == f.end_fixups@.push(len as usize)
                &&& g.start_offset == len + 5 && final(script)@.len() == len + 5
                &&& g.if_then_end_reachable == Some(!*old(is_unreachable) || f.end_reachable_from_branch)
                &&& final(stack)@.len() == f.stack_height
                &&& *final(is_unreachable) == !f.entry_reachable
            })
        }),
{
    proof {
        if old(control_stack)@.len() > 0 {
            lemma_frames_after_pop(old(control_stack)@, n);
        }
    }
    let mut frame = match control_stack.pop() {
        Some(f) => f,
        None => {
            return Err(TranslateError::ElseWithoutIf);
        },
    };
    if frame.kind != ControlKind::If {
        return Err(TranslateError::ElseOutsideIf);
    }
    proof {
        assert(old(script)@.subrange(0, n) =~= old(script)@.subrange(0, n));
    }
    if let Some(pos) = frame.if_false_fixup {
        let else_start = script.len();
        patch_jump(script, pos, else_start)?;
        proof {
            lemma_keeps_prefix_patch(old(script)@, pos as int, else_start as int, n);
        }
    }
    let ghost s1 = script@;
    frame.if_false_fixup = None;
    let jump_end = emit_jump_placeholder(script, JMP_L);
    proof {
        lemma_keeps_prefix_append(s1, placeholder_bytes(JMP_L), n);
        lemma_keeps_prefix_trans(old(script)@, s1, script@, n);
    }
    let ghost fixups0 = frame.end_fixups@;
    frame.end_fixups.push(jump_end);
    proof {
        assert forall|j: int| 0 <= j < frame.end_fixups@.len() implies n
            <= #[trigger] frame.end_fixups@[j] by {
            if j < fixups0.len() {
                assert(frame.end_fixups@[j] == fixups0[j]);
            }
        }
    }
    frame.has_else = true;
    frame.start_offset = script.len();
    if !*is_unreachable {
        let expected = match frame.stack_height.checked_add(frame.result_count) {
            Some(e) => e,
            None => {
                return Err(TranslateError::StackHeightOverflow);
            },
        };
        if stack.len() < expected {
            return Err(
                TranslateError::BlockResultMissing {
                    expected: frame.result_count,
                    found: stack.len().saturating_sub(frame.stack_height),
                },
            );
        }
    }
    let then_fallthrough_reachable = !*is_unreachable;
    frame.if_then_end_reachable = Some(
        then_fallthrough_reachable || frame.end_reachable_from_branch,
    );
    set_stack_height_polymorphic(stack, frame.stack_height);
    proof {
        lemma_values_after_height(old(stack)@, stack@, n);
        assert(frame_after(frame, n));
        lemma_frames_after_push(control_stack@, frame, n);
    }
    *is_unreachable = !frame.entry_reachable;
    control_stack.push(frame);
    Ok(())
}

/// `end`: closes the innermost construct and patches the jumps to its end.
#[verifier::spinoff_prover]
#[verifier::rlimit(30)]
fn translate_end(
    script: &mut Vec<u8>,
    stack: &mut Vec<StackValue>,
    control_stack: &mut Vec<ControlFrame>,
    is_unreachable: &mut bool,
    Ghost(n): Ghost<int>,
) -> (r: Result<(), TranslateError>)
    requires
        0 <= n <= old(script)@.len(),
        values_after(old(stack)@, n),
        frames_after(old(control_stack)@, n),
    ensures
        r is Ok ==> keeps_prefix(old(script)@, final(script)@, n) && values_after(
            final(stack)@,
            n,
        ) && frames_after(final(control_stack)@, n),
        old(control_stack)@.len() == 0 ==> r == Err::<(), TranslateError>(
            TranslateError::EndWithoutBlock,
        ),
        old(control_stack)@.len() > 0 ==> ({
            let f = old(control_stack)@.last();
            let len = old(script)@.len() as int;
            let target = f.stack_height + f.result_count;
            &&& (r is Ok <==> end_ok(f, len, old(stack)@.len(), *old(is_unreachable)))
            &&& r is Ok ==> final(control_stack)@ == old(control_stack)@.drop_last()
                && final(script)@.len() == len
            &&& r is Ok && !*old(is_unreachable) ==> final(stack)@ == old(stack)@.subrange(
                0,
                target,
            )
        }),
{
    proof {
        if old(control_stack)@.len() > 0 {
            lemma_frames_after_pop(old(control_stack)@, n);
        }
        assert(old(script)@.subrange(0, n) =~= old(script)@.subrange(0, n));
    }
    let frame = match control_stack.pop() {
        Some(f) => f,
        None => {
            return Err(TranslateError::EndWithoutBlock);
        },
    };
    let end_label = script.len();
    if let Some(pos) = frame.if_false_fixup {
        patch_jump(script, pos, end_label)?;
        proof {
            lemma_keeps_prefix_patch(old(script)@, pos as int, end_label as int, n);
        }
    }
    if frame.kind == ControlKind::If && frame.result_count > 0 && !frame.has_else
        && frame.entry_reachable {
        return Err(TranslateError::IfResultNeedsElse);
    }
    let mut k: usize = 0;
    while k < frame.end_fixups.len()
        invariant
            0 <= n <= old(script)@.len(),
            frame_after(frame, n),
            keeps_prefix(old(script)@, script@, n),
            script@.len() == old(script)@.len(),
            end_label == old(script)@.len(),
            k <= frame.end_fixups@.len(),
            old(control_stack)@.len() > 0,
            frame == old(control_stack)@.last(),
            control_stack@ == old(control_stack)@.drop_last(),
            stack@ == old(stack)@,
            *is_unreachable == *old(is_unreachable),
            frame.if_false_fixup is Some ==> frame.if_false_fixup->0 + 5 <= end_label
                && displacement_fits(frame.if_false_fixup->0 as int, end_label as int),
            !(frame.kind == ControlKind::If && frame.result_count > 0 && !frame.has_else
                && frame.entry_reachable),
            forall|j: int|
                0 <= j < k ==> #[trigger] frame.end_fixups@[j] + 5 <= end_label
                    && displacement_fits(frame.end_fixups@[j] as int, end_label as int),
        decreases frame.end_fixups@.len() - k,
    {
        let ghost before = script@;
        let pos = frame.end_fixups[k];
        patch_jump(script, pos, end_label)?;
        proof {
            assert(n <= frame.end_fixups@[k as int]);
            lemma_keeps_prefix_patch(before, pos as int, end_label as int, n);
            lemma_keeps_prefix_trans(old(script)@, before, script@, n);
        }
        k = k + 1;
    }
    let target_height = match frame.stack_height.checked_add(frame.result_count) {
        Some(t) => t,
        None => {
            return Err(TranslateError::StackHeightOverflow);
        },
    };
    let fallthrough_reachable = !*is_unreachable;
    let end_reachable = match frame.kind {
        ControlKind::If => {
            if frame.has_else {
                let then_end = match frame.if_then_end_reachable {
                    Some(b) => b,
                    None => false,
                };
                then_end || fallthrough_reachable || frame.end_reachable_from_branch
            } else {
                fallthrough_reachable || frame.entry_reachable || frame.end_reachable_from_branch
            }
        },
        ControlKind::Loop => fallthrough_reachable,
        _ => fallthrough_reachable || frame.end_reachable_from_branch,
    };
    if !*is_unreachable && stack.len() < target_height {
        return Err(
            TranslateError::BlockResultMissing {
                expected: frame.result_count,
                found: stack.len().saturating_sub(frame.stack_height),
            },
        );
    }
    if *is_unreachable && end_reachable && stack.len() < target_height {
        set_stack_height_polymorphic(stack, target_height);
        proof {
            lemma_values_after_height(old(stack)@, stack@, n);
        }
    } else {
        stack.truncate(target_height);
        proof {
            lemma_values_after_truncated(old(stack)@, target_height as nat, n);
        }
    }
    *is_unreachable = !end_reachable;
    Ok(())
}

/// Whether `block` or `loop` of type `ty` had the outcome `r`: it fails exactly on a type the
/// translator rejects, and otherwise opens a frame of `kind` at the current position and
/// operand height, leaving the script and the operands alone.
pub open spec fn opens_frame(
    kind: ControlKind,
    ty: BlockKind,
    types: Seq<FuncSig>,
    script0: Seq<u8>,
    script1: Seq<u8>,
    stack0: Seq<StackValue>,
    stack1: Seq<StackValue>,
    frames0: Seq<ControlFrame>,
    frames1: Seq<ControlFrame>,
    unreachable: bool,
    r: Result<bool, TranslateError>,
) -> bool {
    match block_arity(ty, types) {
        Err(e) => r == Err::<bool, TranslateError>(e),
        Ok(count) => {
            let f = frames1.last();
            &&& r == Ok::<bool, TranslateError>(true)
            &&& script1 == script0
            &&& stack1 == stack0
            &&& frames1.len() == frames0.len() + 1
            &&& frames1.drop_last() == frames0
            &&& f.kind == kind
            &&& f.stack_height == stack0.len()
            &&& f.result_count == count
            &&& f.start_offset == script0.len()
            &&& f.end_fixups@.len() == 0
            &&& f.if_false_fixup is None
            &&& f.entry_reachable == !unreachable
        },
    }
}

/// The structured control operators.
#[verifier::spinoff_prover]
#[verifier::rlimit(30)]
fn translate_control(
    op: &WasmOp,
    script: &mut Vec<u8>,
    types: &Vec<FuncSig>,
    stack: &mut Vec<StackValue>,
    control_stack: &mut Vec<ControlFrame>,
    is_unreachable: &mut bool,
    Ghost(n): Ghost<int>,
) -> (r: Result<bool, TranslateError>)
    requires
        0 <= n <= old(script)@.len(),
        values_after(old(stack)@, n),
        frames_after(old(control_stack)@, n),
    ensures
        r is Ok ==> keeps_prefix(old(script)@, final(script)@, n) && values_after(
            final(stack)@,
            n,
        ) && frames_after(final(control_stack)@, n),
        match *op {
            WasmOp::Block(ty) => opens_frame(
                ControlKind::Block,
                ty,
                types@,
                old(script)@,
                final(script)@,
                old(stack)@,
                final(stack)@,
                old(control_stack)@,
                final(control_stack)@,
                *old(is_unreachable),
                r,
            ),
            WasmOp::Loop(ty) => opens_frame(
                ControlKind::Loop,
                ty,
                types@,
                old(script)@,
                final(script)@,
                old(stack)@,
                final(stack)@,
                old(control_stack)@,
                final(control_stack)@,
                *old(is_unreachable),
                r,
            ),
            WasmOp::If(ty) => {
                &&& block_arity(ty, types@) is Err ==> r is Err
                &&& block_arity(ty, types@) is Ok && old(stack)@.len() == 0
                    && !*old(is_unreachable) ==> r == Err::<bool, TranslateError>(
                    TranslateError::StackUnderflow,
                )
                &&& block_arity(ty, types@) is Ok && (old(stack)@.len() > 0
                    || *old(is_unreachable)) ==> r == Ok::<bool, TranslateError>(true)
                &&& r is Ok ==> ({
                    let f = final(control_stack)@.last();
                    &&& final(script)@ == old(script)@ + placeholder_bytes(JMPIFNOT_L)
                    &&& final(control_stack)@.drop_last() == old(control_stack)@
                    &&& final(control_stack)@.len() == old(control_stack)@.len() + 1
                    &&& f.kind == ControlKind::If
                    &&& f.if_false_fixup == Some(old(script)@.len() as usize)
                    &&& f.start_offset == old(script)@.len() + 5
                    &&& f.result_count == block_arity(ty, types@)->Ok_0
                    &&& f.stack_height == final(stack)@.len()
                    &&& f.entry_reachable == !*old(is_unreachable)
                })
            },
            WasmOp::Else => (old(control_stack)@.len() == 0 ==> r is Err) && (r is Ok ==> r
                == Ok::<bool, TranslateError>(true) && final(control_stack)@.len() == old(
                control_stack,
            )@.len()),
            WasmOp::End => (old(control_stack)@.len() == 0 ==> r is Err) && (old(
                control_stack,
            )@.len() > 0 ==> (r is Ok <==> end_ok(
                old(control_stack)@.last(),
                old(script)@.len() as int,
                old(stack)@.len(),
                *old(is_unreachable),
            ))) && (r is Ok ==> r == Ok::<bool, TranslateError>(true) && final(control_stack)@
                == old(control_stack)@.drop_last()),
            WasmOp::Br(d) => (r is Ok <==> branch_ok(
                old(script)@,
                old(stack)@.len(),
                old(control_stack)@,
                d as int,
                false,
                *old(is_unreachable),
            )) && (r is Ok ==> r == Ok::<bool, TranslateError>(true)),
            WasmOp::BrIf(d) => (old(stack)@.len() == 0 && !*old(is_unreachable) ==> r
                == Err::<bool, TranslateError>(TranslateError::StackUnderflow)) && ((old(
                stack,
            )@.len() > 0 || *old(is_unreachable)) ==> (r is Ok <==> branch_ok(
                old(script)@,
                (if old(stack)@.len() > 0 {
                    old(stack)@.len() - 1
                } else {
                    0
                }) as nat,
                old(control_stack)@,
                d as int,
                true,
                *old(is_unreachable),
            ))) && (r is Ok ==> r == Ok::<bool, TranslateError>(true)),
            WasmOp::BrTable { targets, default } => (old(stack)@.len() == 0 && !*old(is_unreachable) ==> r
                == Err::<bool, TranslateError>(TranslateError::StackUnderflow)) && (r is Ok ==> r
                == Ok::<bool, TranslateError>(true) && *final(is_unreachable)) && (old(stack)@.len() > 0
                && old(stack)@.last().const_value is Some ==> (r is Ok <==> branch_ok(
                old(script)@.push(DROP),
                (old(stack)@.len() - 1) as nat,
                old(control_stack)@,
                selected_depth(
                    table_depths(targets@),
                    default as usize,
                    old(stack)@.last().const_value->0,
                ),
                false,
                *old(is_unreachable),
            )) && (r is Ok ==> branch_outcome(
                old(script)@.push(DROP),
                final(script)@,
                old(stack)@.drop_last(),
                final(stack)@,
                old(control_stack)@,
                final(control_stack)@,
                selected_depth(
                    table_depths(targets@),
                    default as usize,
                    old(stack)@.last().const_value->0,
                ),
                false,
                *old(is_unreachable),
                *final(is_unreachable),
            ))) && (old(stack)@.len() > 0 && old(stack)@.last().const_value is None ==> (r is Ok
                ==> dispatches_cases(old(script)@, final(script)@, targets@.len()) && cases_branch(
                final(script)@,
                old(control_stack)@,
                final(control_stack)@,
                old(script)@.len() as int,
                targets@.len() as int,
                table_depths(targets@),
            ))
                && dynamic_table_outcome(
                old(script)@,
                (old(stack)@.len() - 1) as nat,
                old(control_stack)@,
                table_depths(targets@),
                default as usize,
                *old(is_unreachable),
                r is Ok,
            )),
            _ => r == Ok::<bool, TranslateError>(false) && final(script)@ == old(script)@
                && final(stack)@ == old(stack)@ && final(control_stack)@ == old(control_stack)@
                && *final(is_unreachable) == *old(is_unreachable),
        },
{
    proof {
        assert(old(script)@.subrange(0, n) =~= old(script)@.subrange(0, n));
    }
    match op {
        WasmOp::Block(ty) => {
            let result_count = block_result_count(*ty, types)?;
            let frame = new_frame(
                ControlKind::Block,
                stack.len(),
                result_count,
                script.len(),
                None,
                !*is_unreachable,
            );
            proof {
                lemma_frames_after_push(control_stack@, frame, n);
            }
            control_stack.push(frame);
            proof {
                assert(control_stack@.drop_last() =~= old(control_stack)@);
            }
            Ok(true)
        },
        WasmOp::Loop(ty) => {
            let result_count = block_result_count(*ty, types)?;
            let frame = new_frame(
                ControlKind::Loop,
                stack.len(),
                result_count,
                script.len(),
                None,
                !*is_unreachable,
            );
            proof {
                lemma_frames_after_push(control_stack@, frame, n);
            }
            control_stack.push(frame);
            proof {
                assert(control_stack@.drop_last() =~= old(control_stack)@);
            }
            Ok(true)
        },
        WasmOp::If(ty) => {
            let result_count = block_result_count(*ty, types)?;
            let _cond = pop_value_maybe_unreachable(stack, *is_unreachable)?;
            proof {
                if old(stack)@.len() > 0 {
                    lemma_values_after_drop_last(old(stack)@, n);
                }
            }
            let jump_pos = emit_jump_placeholder(script, JMPIFNOT_L);
            proof {
                lemma_keeps_prefix_append(old(script)@, placeholder_bytes(JMPIFNOT_L), n);
            }
            let frame = new_frame(
                ControlKind::If,
                stack.len(),
                result_count,
                script.len(),
                Some(jump_pos),
                !*is_unreachable,
            );
            proof {
                lemma_frames_after_push(control_stack@, frame, n);
            }
            control_stack.push(frame);
            proof {
                assert(control_stack@.drop_last() =~= old(control_stack)@);
            }
            Ok(true)
        },
        WasmOp::Else => {
            translate_else(script, stack, control_stack, is_unreachable, Ghost(n))?;
            Ok(true)
        },
        WasmOp::End => {
            translate_end(script, stack, control_stack, is_unreachable, Ghost(n))?;
            Ok(true)
        },
        WasmOp::Br(depth) => {
            handle_branch(script, stack, control_stack, *depth as usize, false, is_unreachable)?;
            proof {
                lemma_branch_keeps(old(script)@, script@, old(control_stack)@, control_stack@, old(stack)@, stack@, n);
            }
            Ok(true)
        },
        WasmOp::BrIf(depth) => {
            let _cond = pop_value_maybe_unreachable(stack, *is_unreachable)?;
            let ghost s1 = stack@;
            proof {
                if old(stack)@.len() > 0 {
                    lemma_values_after_drop_last(old(stack)@, n);
                }
            }
            handle_branch(script, stack, control_stack, *depth as usize, true, is_unreachable)?;
            proof {
                lemma_branch_keeps(old(script)@, script@, old(control_stack)@, control_stack@, s1, stack@, n);
            }
            Ok(true)
        },
        WasmOp::BrTable { targets, default } => {
            let index = pop_value_maybe_unreachable(stack, *is_unreachable)?;
            let ghost s1 = stack@;
            proof {
                if old(stack)@.len() > 0 {
                    lemma_values_after_drop_last(old(stack)@, n);
                }
            }
            let mut depths: Vec<usize> = Vec::new();
            let mut i: usize = 0;
            while i < targets.len()
                invariant
                    i <= targets@.len(),
                    depths@.len() == i,
                    forall|j: int| 0 <= j < i ==> depths@[j] == #[trigger] targets@[j] as usize,
                decreases targets@.len() - i,
            {
                depths.push(targets[i] as usize);
                i = i + 1;
            }
            proof {
                assert(depths@ =~= table_depths(targets@));
            }
            handle_br_table(
                script,
                stack,
                control_stack,
                index,
                &depths,
                *default as usize,
                is_unreachable,
            )?;
            proof {
                lemma_branch_keeps(old(script)@, script@, old(control_stack)@, control_stack@, s1, stack@, n);
            }
            Ok(true)
        },
        _ => Ok(false),
    }
}

/// A branch keeps every prefix, recorded jump and constant position that lies before it.
proof fn lemma_branch_keeps(
    s0: Seq<u8>,
    s1: Seq<u8>,
    c0: Seq<ControlFrame>,
    c1: Seq<ControlFrame>,
    v0: Seq<StackValue>,
    v1: Seq<StackValue>,
    n: int,
)
    requires
        0 <= n <= s0.len(),
        frames_after(c0, n),
        values_after(v0, n),
        keeps_prefix(s0, s1, s0.len() as int),
        fixups_grow(c0, c1, s0.len() as int),
        forall|m: int| values_after(v0, m) ==> #[trigger] values_after(v1, m),
    ensures
        keeps_prefix(s0, s1, n),
        frames_after(c1, n),
        values_after(v1, n),
{
    lemma_keeps_prefix_shorter(s0, s1, s0.len() as int, n);
    lemma_frames_after_grow(c0, c1, s0.len() as int, n);
}

/// Whether dropping `v` removes the literal that pushed it: `v` is a constant whose literal
/// starts at or after `floor` and is the last instruction of `script`.
pub open spec fn drop_removes_literal(script: Seq<u8>, v: StackValue, floor: int) -> bool {
    &&& v.const_value is Some
    &&& v.bytecode_start is Some
    &&& ({
        let start = v.bytecode_start->0 as int;
        &&& floor <= start < script.len()
        &&& literal_len_of(script[start]) is Some
        &&& start + literal_len_of(script[start])->0 == script.len()
    })
}

/// `script` once the value `v` is dropped: a dead literal that ends the script at or after
/// `floor` is cut off, and otherwise a DROP discards the value at run time.
pub open spec fn dropped(script: Seq<u8>, v: StackValue, floor: int) -> Seq<u8> {
    if drop_removes_literal(script, v, floor) {
        script.subrange(0, v.bytecode_start->0 as int)
    } else {
        script.push(DROP)
    }
}

/// `local.get`, `local.set`, `local.tee` and `drop`. No jump lands after `floor`, so code
/// from there on can be cut back.
#[verifier::spinoff_prover]
#[verifier::rlimit(30)]
fn translate_locals(
    op: &WasmOp,
    script: &mut Vec<u8>,
    stack: &mut Vec<StackValue>,
    locals: &mut Vec<LocalState>,
    floor: usize,
    Ghost(n): Ghost<int>,
) -> (r: Result<bool, TranslateError>)
    requires
        0 <= n <= old(script)@.len(),
        values_after(old(stack)@, n),
    ensures
        r is Ok ==> keeps_prefix(old(script)@, final(script)@, n) && values_after(
            final(stack)@,
            n,
        ),
        final(locals)@.len() == old(locals)@.len(),
        match *op {
            WasmOp::LocalGet(i) => if i >= old(locals)@.len() {
                r == Err::<bool, TranslateError>(TranslateError::LocalIndexOutOfBounds { index: i })
            } else {
                let state = old(locals)@[i as int];
                &&& final(locals)@ == old(locals)@
                &&& (r is Ok <==> (state.const_value is Some || slot_addressable(state.kind)))
                &&& r is Ok ==> r == Ok::<bool, TranslateError>(true) && match state.const_value {
                    Some(v) => final(script)@ == old(script)@ + push_int_bytes(v as int)
                        && final(stack)@ == old(stack)@.push(
                        StackValue { const_value: Some(v), bytecode_start: Some(old(script)@.len() as usize) },
                    ),
                    None => final(script)@ == old(script)@ + load_bytes(state.kind) && final(stack)@
                        == old(stack)@.push(unknown_value()),
                }
                &&& r is Ok ==> (final(script)@, final(stack)@.last()) == local_get_outcome(
                    state,
                    old(script)@,
                )
            },
            WasmOp::LocalSet(i) => if old(stack)@.len() == 0 {
                r == Err::<bool, TranslateError>(TranslateError::StackUnderflow)
            } else if i >= old(locals)@.len() {
                r == Err::<bool, TranslateError>(TranslateError::LocalIndexOutOfBounds { index: i })
            } else {
                let state = old(locals)@[i as int];
                &&& (r is Ok <==> slot_addressable(state.kind))
                &&& r is Ok ==> r == Ok::<bool, TranslateError>(true) && final(script)@ == old(
                    script,
                )@ + store_bytes(state.kind) && final(stack)@ == old(stack)@.drop_last()
                    && final(locals)@ == old(locals)@.update(
                    i as int,
                    LocalState { kind: state.kind, const_value: old(stack)@.last().const_value },
                ) && (final(script)@, final(locals)@[i as int]) == local_set_outcome(
                    state,
                    old(stack)@.last(),
                    old(script)@,
                )
            },
            WasmOp::LocalTee(i) => if old(stack)@.len() == 0 {
                r == Err::<bool, TranslateError>(TranslateError::StackUnderflow)
            } else if i >= old(locals)@.len() {
                r == Err::<bool, TranslateError>(TranslateError::LocalIndexOutOfBounds { index: i })
            } else {
                let state = old(locals)@[i as int];
                &&& (r is Ok <==> slot_addressable(state.kind))
                &&& r is Ok ==> r == Ok::<bool, TranslateError>(true) && final(stack)@.len()
                    == old(stack)@.len() && final(stack)@.drop_last() == old(stack)@.drop_last()
                    && final(stack)@.last().const_value == old(stack)@.last().const_value
                    && final(locals)@ == old(locals)@.update(
                    i as int,
                    LocalState { kind: state.kind, const_value: old(stack)@.last().const_value },
                ) && (final(script)@, final(stack)@.last(), final(locals)@[i as int])
                    == local_tee_outcome(state, old(stack)@.last(), old(script)@)
            },
            WasmOp::Drop => (r is Ok <==> old(stack)@.len() > 0) && (r is Ok ==> r == Ok::<
                bool,
                TranslateError,
            >(true) && final(script)@ == dropped(old(script)@, old(stack)@.last(), floor as int)
                && final(stack)@ == old(stack)@.drop_last() && final(locals)@ == old(locals)@),
            _ => r == Ok::<bool, TranslateError>(false) && final(script)@ == old(script)@
                && final(stack)@ == old(stack)@ && final(locals)@ == old(locals)@,
        },
{
    proof {
        assert(old(script)@.subrange(0, n) =~= old(script)@.subrange(0, n));
    }
    match op {
        WasmOp::LocalGet(index) => {
            if *index as usize >= locals.len() {
                return Err(TranslateError::LocalIndexOutOfBounds { index: *index });
            }
            proof {
                assert(script.len() == script@.len());
            }
            let value = emit_local_get(script, &locals[*index as usize])?;
            proof {
                assert(script@.subrange(0, n) =~= old(script)@.subrange(0, n));
                lemma_values_after_push(stack@, value, n);
            }
            stack.push(value);
            Ok(true)
        },
        WasmOp::LocalSet(index) => {
            let value = pop_value(stack)?;
            proof {
                lemma_values_after_drop_last(old(stack)@, n);
            }
            if *index as usize >= locals.len() {
                return Err(TranslateError::LocalIndexOutOfBounds { index: *index });
            }
            let mut state = locals[*index as usize];
            emit_local_set(script, &mut state, &value)?;
            proof {
                assert(script@.subrange(0, n) =~= old(script)@.subrange(0, n));
            }
            locals.set(*index as usize, state);
            Ok(true)
        },
        WasmOp::LocalTee(index) => {
            let value = pop_value(stack)?;
            proof {
                lemma_values_after_drop_last(old(stack)@, n);
            }
            if *index as usize >= locals.len() {
                return Err(TranslateError::LocalIndexOutOfBounds { index: *index });
            }
            let mut state = locals[*index as usize];
            emit_local_set(script, &mut state, &value)?;
            locals.set(*index as usize, state);
            let ghost s1 = script@;
            proof {
                assert(script.len() == script@.len());
            }
            let value = emit_local_get(script, &state)?;
            proof {
                assert(s1.subrange(0, n) =~= old(script)@.subrange(0, n));
                assert(script@.subrange(0, n) =~= s1.subrange(0, n));
                lemma_values_after_push(stack@, value, n);
            }
            stack.push(value);
            Ok(true)
        },
        WasmOp::Drop => {
            let value = pop_value(stack)?;
            proof {
                lemma_values_after_drop_last(old(stack)@, n);
            }
            if let (Some(_), Some(start)) = (value.const_value, value.bytecode_start) {
                if start >= floor {
                    if let Ok(len) = literal_instruction_len(script, start) {
                        if len == script.len() - start {
                            proof {
                                assert(values_after(old(stack)@, n));
                                assert(old(stack)@[old(stack)@.len() - 1] == value);
                                lemma_keeps_prefix_cut(old(script)@, start as int, n);
                            }
                            script.truncate(start);
                            proof {
                                assert(script@ =~= old(script)@.subrange(0, start as int));
                            }
                            return Ok(true);
                        }
                    }
                }
            }
            script.push(DROP);
            proof {
                assert(script@.subrange(0, n) =~= old(script)@.subrange(0, n));
            }
            Ok(true)
        },
        _ => Ok(false),
    }
}

/// Whether a lower-cased `env` import name is one of the memory routines the translator
/// would call a runtime helper for.
pub open spec fn is_env_memory_routine(lower: Seq<u8>) -> bool {
    lower == seq![109u8, 101, 109, 99, 112, 121] || lower == seq![109u8, 101, 109, 109, 111, 118,
        101] || lower == seq![109u8, 101, 109, 115, 101, 116] || lower == seq![95u8, 95, 98, 117,
        105, 108, 116, 105, 110, 95, 109, 101, 109, 99, 112, 121] || lower == seq![95u8, 95, 98,
        117, 105, 108, 116, 105, 110, 95, 109, 101, 109, 109, 111, 118, 101] || lower == seq![95u8,
        95, 98, 117, 105, 108, 116, 105, 110, 95, 109, 101, 109, 115, 101, 116]
}

/// The error for a call of an `env` import: `memcpy`, `memmove` and `memset` (and their
/// `__builtin_` forms) need a runtime helper; no other `env` routine is supported.
pub fn env_import_error(import: &FunctionImport) -> (r: TranslateError)
    ensures
        is_env_memory_routine(ascii_lower_seq(encode_utf8(import.name@))) ==> r == (
        TranslateError::RuntimeHelperRequired { name: import.name }),
        !is_env_memory_routine(ascii_lower_seq(encode_utf8(import.name@))) ==> r == (
        TranslateError::UnsupportedImportModule { module: import.module, name: import.name }),
{
    let lower = lower_bytes(import.name.as_str().as_bytes());
    let memcpy: [u8; 6] = [109, 101, 109, 99, 112, 121];
    let memmove: [u8; 7] = [109, 101, 109, 109, 111, 118, 101];
    let memset: [u8; 6] = [109, 101, 109, 115, 101, 116];
    let b_memcpy: [u8; 16] = [95, 95, 98, 117, 105, 108, 116, 105, 110, 95, 109, 101, 109, 99, 112, 121];
    let b_memmove: [u8; 17] = [95, 95, 98, 117, 105, 108, 116, 105, 110, 95, 109, 101, 109, 109, 111, 118, 101];
    let b_memset: [u8; 16] = [95, 95, 98, 117, 105, 108, 116, 105, 110, 95, 109, 101, 109, 115, 101, 116];
    proof {
        assert(memcpy@ =~= seq![109u8, 101, 109, 99, 112, 121]);
        assert(memmove@ =~= seq![109u8, 101, 109, 109, 111, 118, 101]);
        assert(memset@ =~= seq![109u8, 101, 109, 115, 101, 116]);
        assert(b_memcpy@ =~= seq![95u8, 95, 98, 117, 105, 108, 116, 105, 110, 95, 109, 101, 109, 99, 112, 121]);
        assert(b_memmove@ =~= seq![95u8, 95, 98, 117, 105, 108, 116, 105, 110, 95, 109, 101, 109, 109, 111, 118, 101]);
        assert(b_memset@ =~= seq![95u8, 95, 98, 117, 105, 108, 116, 105, 110, 95, 109, 101, 109, 115, 101, 116]);
    }
    let l = lower.as_slice();
    if bytes_equal(l, memcpy.as_slice()) || bytes_equal(l, memmove.as_slice()) || bytes_equal(
        l,
        memset.as_slice(),
    ) || bytes_equal(l, b_memcpy.as_slice()) || bytes_equal(l, b_memmove.as_slice())
        || bytes_equal(l, b_memset.as_slice()) {
        TranslateError::RuntimeHelperRequired { name: import.name.clone() }
    } else {
        TranslateError::UnsupportedImportModule {
            module: import.module.clone(),
            name: import.name.clone(),
        }
    }
}

/// `return`, `unreachable` and `call`.
#[verifier::spinoff_prover]
#[verifier::rlimit(30)]
fn translate_calls(
    op: &WasmOp,
    script: &mut Vec<u8>,
    module: &WasmModule,
    registry: &mut FunctionRegistry,
    stack: &mut Vec<StackValue>,
    features: &mut FeatureTracker,
    is_unreachable: &mut bool,
    Ghost(n): Ghost<int>,
) -> (r: Result<bool, TranslateError>)
    requires
        0 <= n <= old(script)@.len(),
        values_after(old(stack)@, n),
    ensures
        final(registry).offsets@ == old(registry).offsets@,
        final(features).payable == old(features).payable,
        r is Ok ==> keeps_prefix(old(script)@, final(script)@, n) && values_after(
            final(stack)@,
            n,
        ),
        match *op {
            WasmOp::Return => r == Ok::<bool, TranslateError>(true) && final(script)@ == old(
                script,
            )@.push(RET) && final(stack)@.len() == 0 && *final(is_unreachable),
            WasmOp::Unreachable => r == Ok::<bool, TranslateError>(true) && final(script)@ == old(
                script,
            )@.push(ABORT) && final(stack)@.len() == 0 && *final(is_unreachable),
            WasmOp::Call(f) => {
                let ni = module.imports@.len();
                let ti = function_type_index(*module, f);
                &&& !(ti is Some && ti->0 < module.types@.len()) ==> r is Err
                &&& (ti is Some && ti->0 < module.types@.len()) ==> {
                    let sig = module.types@[ti->0 as int];
                    let k = sig.params@.len();
                    &&& old(stack)@.len() < k ==> r == Err::<bool, TranslateError>(
                        TranslateError::StackUnderflow,
                    )
                    &&& f >= ni && old(stack)@.len() >= k && sig.results@.len() > 1 ==> r
                        == Err::<bool, TranslateError>(TranslateError::MultiValueReturn)
                    &&& f >= ni && old(stack)@.len() >= k && sig.results@.len() <= 1 ==> (r is Ok
                        <==> f < old(registry).offsets@.len()) && (r is Ok ==> final(script)@
                        == old(script)@ + placeholder_bytes(CALL_L) && final(registry).pending@
                        == old(registry).pending@.push((old(script)@.len() as usize, f as usize)))
                    &&& r is Ok ==> r == Ok::<bool, TranslateError>(true) && final(stack)@
                        == old(stack)@.subrange(0, old(stack)@.len() - k) + (if sig.results@.len()
                        > 0 {
                        seq![unknown_value()]
                    } else {
                        Seq::empty()
                    })
                }
            },
            _ => r == Ok::<bool, TranslateError>(false) && final(script)@ == old(script)@
                && final(stack)@ == old(stack)@,
        },
{
    proof {
        assert(old(script)@.subrange(0, n) =~= old(script)@.subrange(0, n));
    }
    match op {
        WasmOp::Return => {
            script.push(RET);
            *is_unreachable = true;
            stack.clear();
            proof {
                assert(script@.subrange(0, n) =~= old(script)@.subrange(0, n));
            }
            Ok(true)
        },
        WasmOp::Unreachable => {
            script.push(ABORT);
            *is_unreachable = true;
            stack.clear();
            proof {
                assert(script@.subrange(0, n) =~= old(script)@.subrange(0, n));
            }
            Ok(true)
        },
        WasmOp::Call(function_index) => {
            let function_index = *function_index;
            let (imported, func_sig) = get_function_type_info(function_index, module)?;
            let param_count = func_sig.params.len();
            let mut params: Vec<StackValue> = Vec::new();
            let mut i: usize = 0;
            while i < param_count
                invariant
                    *op == WasmOp::Call(function_index),
                    function_type_index(*module, function_index) is Some,
                    *func_sig == module.types@[function_type_index(*module, function_index)->0 as int],
                    imported == (function_index < module.imports@.len()),
                    param_count == func_sig.params@.len(),
                    i <= param_count,
                    i <= old(stack)@.len(),
                    stack@ == old(stack)@.subrange(0, old(stack)@.len() - i),
                    values_after(stack@, n),
                    values_after(params@, n),
                    registry.offsets@ == old(registry).offsets@,
                    features.payable == old(features).payable,
                    script@ == old(script)@,
                decreases param_count - i,
            {
                let ghost s0 = stack@;
                let v = pop_value(stack)?;
                proof {
                    assert(s0[s0.len() - 1] == v);
                    lemma_values_after_drop_last(s0, n);
                    lemma_values_after_push(params@, v, n);
                }
                params.push(v);
                i = i + 1;
            }
            let mut ordered: Vec<StackValue> = Vec::new();
            let mut j: usize = params.len();
            while j > 0
                invariant
                    values_after(params@, n),
                    values_after(ordered@, n),
                decreases j,
            {
                j = j - 1;
                if j < params.len() {
                    proof {
                        lemma_values_after_push(ordered@, params@[j as int], n);
                    }
                    ordered.push(params[j]);
                }
            }
            if imported {
                let import = &module.imports[function_index as usize];
                if str_eq_ignore_case(import.module.as_str(), "env") {
                    return Err(env_import_error(import));
                }
                handle_import_call(
                    function_index,
                    script,
                    &module.imports,
                    &module.types,
                    &ordered,
                    features,
                )?;
                proof {
                    assert(keeps_prefix(old(script)@, script@, n));
                }
            } else {
                if func_sig.results.len() > 1 {
                    return Err(TranslateError::MultiValueReturn);
                }
                registry.emit_call(script, function_index as usize)?;
                proof {
                    assert(script@.subrange(0, n) =~= old(script)@.subrange(0, n));
                }
            }
            if func_sig.results.len() > 0 {
                let ghost popped = stack@;
                push_placeholder_value(stack);
                proof {
                    lemma_values_after_push(popped, unknown_value(), n);
                }
            }
            Ok(true)
        },
        _ => Ok(false),
    }
}

/// Whether `local.get` of a local in this state succeeds: it is a known constant, or its slot
/// can be addressed.
pub open spec fn gettable(s: LocalState) -> bool {
    s.const_value is Some || slot_addressable(s.kind)
}

/// Whether `end` closes the frame `f` at position `len` with `h` operands on the stack: every
/// jump to its end reaches, an `if` that yields values has an `else` (or is unreachable), and
/// reachable code leaves the frame's results.
pub open spec fn end_ok(f: ControlFrame, len: int, h: nat, unreachable: bool) -> bool {
    &&& end_patches_ok(f, len)
    &&& !(f.kind == ControlKind::If && f.result_count > 0 && !f.has_else && f.entry_reachable)
    &&& f.stack_height + f.result_count <= usize::MAX
    &&& (!unreachable ==> h >= f.stack_height + f.result_count)
}

/// Whether `ops` is straight-line integer code that a function body ending in its final `end`
/// can hold: constants, `local.get` of one of `nlocals` locals, `drop`, `eqz`, comparisons and
/// arithmetic, each finding its operands among the `h` values on the stack, and the last `end`
/// finding the `results` the function returns.
pub open spec fn straight_line(ops: Seq<WasmOp>, h: int, nlocals: int, results: int) -> bool
    decreases ops.len(),
{
    if ops.len() == 0 {
        false
    } else {
        let rest = ops.subrange(1, ops.len() as int);
        match ops[0] {
            WasmOp::End => rest.len() == 0 && h >= results,
            WasmOp::Nop => straight_line(rest, h, nlocals, results),
            WasmOp::I32Const(_) => straight_line(rest, h + 1, nlocals, results),
            WasmOp::I64Const(_) => straight_line(rest, h + 1, nlocals, results),
            WasmOp::LocalGet(i) => i < nlocals && straight_line(rest, h + 1, nlocals, results),
            WasmOp::Drop => h > 0 && straight_line(rest, h - 1, nlocals, results),
            WasmOp::Eqz { .. } => h > 0 && straight_line(rest, h, nlocals, results),
            WasmOp::Compare { .. } => h >= 2 && straight_line(rest, h - 1, nlocals, results),
            WasmOp::Arith { .. } => h >= 2 && straight_line(rest, h - 1, nlocals, results),
            _ => false,
        }
    }
}

/// Whether `ops` reaches an operator the translator does not support through straight-line
/// code alone: constants, `local.get`, `drop`, `eqz`, comparisons and arithmetic.
pub open spec fn reaches_unsupported(ops: Seq<WasmOp>) -> bool
    decreases ops.len(),
{
    if ops.len() == 0 {
        false
    } else {
        let rest = ops.subrange(1, ops.len() as int);
        match ops[0] {
            WasmOp::Unsupported { .. } => true,
            WasmOp::I32Const(_) => reaches_unsupported(rest),
            WasmOp::I64Const(_) => reaches_unsupported(rest),
            WasmOp::LocalGet(_) => reaches_unsupported(rest),
            WasmOp::Drop => reaches_unsupported(rest),
            WasmOp::Eqz { .. } => reaches_unsupported(rest),
            WasmOp::Compare { .. } => reaches_unsupported(rest),
            WasmOp::Arith { .. } => reaches_unsupported(rest),
            _ => false,
        }
    }
}

/// Whether a function with this signature and body translates as straight-line integer code:
/// its types are integers, it is the start function if there is one, its slots fit INITSLOT,
/// it is registered, and its body is [`straight_line`].
pub open spec fn straight_line_function(
    sig: FuncSig,
    body: CodeBody,
    start: Option<u32>,
    function_index: usize,
    name: Seq<u8>,
    registered: nat,
) -> bool {
    &&& all_integer(sig.params@)
    &&& sig.results@.len() <= 1
    &&& (sig.results@.len() == 1 ==> is_integer(sig.results@[0]))
    &&& (start matches Some(s) ==> s == function_index)
    &&& sig.params@.len() <= 255
    &&& locals_integer(body.locals@)
    &&& declared_local_count(body.locals@) + (if uses_payment_adapter(
        name,
        sig.params@.len() as int,
    ) {
        1int
    } else {
        0
    }) <= 255
    &&& function_index < registered
    &&& straight_line(
        body.ops@,
        0,
        sig.params@.len() + declared_local_count(body.locals@),
        sig.results@.len() as int,
    )
}

/// Straight-line code is never empty.
/// Code that reaches an unsupported operator, past a first operator that is supported, goes
/// on and still reaches it.
proof fn lemma_reaches_unsupported_step(ops: Seq<WasmOp>)
    requires
        reaches_unsupported(ops),
        !(ops[0] is Unsupported),
    ensures
        ops.len() > 1,
        reaches_unsupported(ops.subrange(1, ops.len() as int)),
{
    let rest = ops.subrange(1, ops.len() as int);
    if rest.len() == 0 {
        assert(!reaches_unsupported(rest));
    }
}

proof fn lemma_straight_line_nonempty(ops: Seq<WasmOp>, h: int, nlocals: int, results: int)
    requires
        straight_line(ops, h, nlocals, results),
    ensures
        ops.len() > 0,
{
}

/// Whether every value type of a list is i32 or i64.
pub open spec fn all_integer(kinds: Seq<ValKind>) -> bool {
    forall|i: int| 0 <= i < kinds.len() ==> is_integer(#[trigger] kinds[i])
}

/// Whether every run of declared locals has an integer type.
pub open spec fn locals_integer(locals: Seq<(u32, ValKind)>) -> bool {
    forall|i: int| 0 <= i < locals.len() ==> is_integer((#[trigger] locals[i]).1)
}

/// The number of locals that runs of declared locals declare.
pub open spec fn declared_local_count(locals: Seq<(u32, ValKind)>) -> int
    decreases locals.len(),
{
    if locals.len() == 0 {
        0
    } else {
        declared_local_count(locals.drop_last()) + locals.last().0
    }
}

/// Whether a lower-cased function name marks an `onNEP17Payment` handler: it contains
/// `onnep17payment` or `on_nep17_payment`.
pub open spec fn is_payment_handler(lower: Seq<u8>) -> bool {
    seq_contains(lower, seq![111u8, 110, 110, 101, 112, 49, 55, 112, 97, 121, 109, 101, 110, 116])
        || seq_contains(
        lower,
        seq![111u8, 110, 95, 110, 101, 112, 49, 55, 95, 112, 97, 121, 109, 101, 110, 116],
    )
}

/// Whether a function with this name and number of parameters gets the payment data adapter.
pub open spec fn uses_payment_adapter(name: Seq<u8>, param_count: int) -> bool {
    is_payment_handler(ascii_lower_seq(name)) && param_count >= 3
}

/// The manifest return type of a function with these results.
pub open spec fn manifest_return(results: Seq<ValKind>) -> Seq<char> {
    if results.len() == 0 {
        "Void"@
    } else {
        "Integer"@
    }
}

/// The INITSLOT instruction that declares `local_count` locals and `param_count` arguments,
/// or nothing when there are neither.
pub open spec fn prologue_bytes(local_count: int, param_count: int) -> Seq<u8> {
    if local_count == 0 && param_count == 0 {
        Seq::empty()
    } else {
        seq![INITSLOT, local_count as u8, param_count as u8]
    }
}

/// Emits the slot declaration of a function, which INITSLOT limits to 255 of each kind.
pub fn emit_function_prologue(script: &mut Vec<u8>, local_count: u32, param_count: usize) -> (r:
    Result<(), TranslateError>)
    ensures
        param_count > 255 ==> r == Err::<(), TranslateError>(
            TranslateError::TooManyParams { count: param_count },
        ),
        param_count <= 255 && local_count > 255 ==> r == Err::<(), TranslateError>(
            TranslateError::TooManyLocals { count: local_count },
        ),
        param_count <= 255 && local_count <= 255 ==> r is Ok && final(script)@ == old(script)@
            + prologue_bytes(local_count as int, param_count as int),
        r is Err ==> final(script)@ == old(script)@,
{
    if param_count > 255 {
        return Err(TranslateError::TooManyParams { count: param_count });
    }
    if local_count > 255 {
        return Err(TranslateError::TooManyLocals { count: local_count });
    }
    if local_count > 0 || param_count > 0 {
        script.push(INITSLOT);
        script.push(local_count as u8);
        script.push(param_count as u8);
        assert(script@ =~= old(script)@ + prologue_bytes(local_count as int, param_count as int));
    } else {
        assert(script@ =~= old(script)@ + prologue_bytes(local_count as int, param_count as int));
    }
    Ok(())
}

/// Counts the declared locals, which must all be i32 or i64.
fn count_declared_locals(locals: &Vec<(u32, ValKind)>) -> (r: Result<u32, TranslateError>)
    ensures
        r matches Ok(n) ==> locals_integer(locals@) && n == declared_local_count(locals@),
        r is Err ==> !locals_integer(locals@) || declared_local_count(locals@) > u32::MAX,
{
    let mut total: u32 = 0;
    let mut i: usize = 0;
    while i < locals.len()
        invariant
            i <= locals@.len(),
            locals_integer(locals@.subrange(0, i as int)),
            total == declared_local_count(locals@.subrange(0, i as int)),
        decreases locals@.len() - i,
    {
        let (count, kind) = locals[i];
        proof {
            assert(locals@.subrange(0, i + 1).drop_last() =~= locals@.subrange(0, i as int));
        }
        if !is_integer_kind(kind) {
            proof {
                assert(!is_integer(locals@.subrange(0, i + 1)[i as int].1));
                lemma_locals_integer_prefix(locals@, i + 1);
            }
            return Err(TranslateError::UnsupportedType { kind });
        }
        total = match total.checked_add(count) {
            Some(t) => t,
            None => {
                proof {
                    lemma_declared_count_prefix(locals@, i + 1);
                }
                return Err(TranslateError::LocalCountOverflow);
            },
        };
        i = i + 1;
    }
    assert(locals@.subrange(0, locals@.len() as int) =~= locals@);
    Ok(total)
}

/// A run of non-integer locals in a prefix is one of the whole list.
proof fn lemma_locals_integer_prefix(locals: Seq<(u32, ValKind)>, k: int)
    requires
        0 <= k <= locals.len(),
        !locals_integer(locals.subrange(0, k)),
    ensures
        !locals_integer(locals),
{
    let j = choose|j: int| 0 <= j < k && !is_integer((#[trigger] locals.subrange(0, k)[j]).1);
    assert(locals.subrange(0, k)[j] == locals[j]);
}

/// Declared local counts only grow along a list.
proof fn lemma_declared_count_prefix(locals: Seq<(u32, ValKind)>, k: int)
    requires
        0 <= k <= locals.len(),
    ensures
        declared_local_count(locals.subrange(0, k)) <= declared_local_count(locals),
    decreases locals.len(),
{
    if k < locals.len() {
        assert(locals.drop_last().subrange(0, k) =~= locals.subrange(0, k));
        lemma_declared_count_prefix(locals.drop_last(), k);
    } else {
        assert(locals.subrange(0, k) =~= locals);
    }
}

/// Translates the body of function `function_index` with signature `sig`, appending its
/// NeoVM code to `script`, and returns the manifest name of its return type. The bytes already
/// in `script` are left as they are; the function's code starts with its slot declaration and
/// ends with RET. `module` gives
/// the imports and signatures that calls resolve against; calls of defined functions are
/// recorded in `registry`. A module with a start function other than this one needs the
/// memory initialisation helper, which this library does not emit.
#[verifier::spinoff_prover]
#[verifier::rlimit(30)]
pub fn translate_function(
    sig: &FuncSig,
    body: &CodeBody,
    module: &WasmModule,
    function_index: usize,
    function_name: &str,
    script: &mut Vec<u8>,
    registry: &mut FunctionRegistry,
    features: &mut FeatureTracker,
) -> (r: Result<&'static str, TranslateError>)
    ensures
        !all_integer(sig.params@) ==> r is Err,
        sig.results@.len() > 1 ==> r is Err,
        sig.results@.len() == 1 && !is_integer(sig.results@[0]) ==> r is Err,
        (module.start matches Some(s) && s != function_index) ==> r is Err,
        sig.params@.len() > 255 ==> r is Err,
        !locals_integer(body.locals@) ==> r is Err,
        declared_local_count(body.locals@) + (if uses_payment_adapter(
            function_name.spec_bytes(),
            sig.params@.len() as int,
        ) {
            1int
        } else {
            0
        }) > 255 ==> r is Err,
        function_index >= old(registry).offsets@.len() ==> r is Err,
        straight_line_function(
            *sig,
            *body,
            module.start,
            function_index,
            function_name.spec_bytes(),
            old(registry).offsets@.len(),
        ) ==> r is Ok && final(registry).pending@ == old(registry).pending@,
        reaches_unsupported(body.ops@) ==> r is Err,
        r matches Ok(kind) ==> kind@ == manifest_return(sig.results@),
        r is Ok ==> final(script)@.len() > old(script)@.len() && final(script)@.last() == RET,
        r is Ok ==> ({
            let head = old(script)@ + prologue_bytes(
                declared_local_count(body.locals@) + (if uses_payment_adapter(
                    function_name.spec_bytes(),
                    sig.params@.len() as int,
                ) {
                    1int
                } else {
                    0
                }),
                sig.params@.len() as int,
            );
            &&& head.len() <= final(script)@.len()
            &&& final(script)@.subrange(0, head.len() as int) == head
        }),
        final(registry).offsets@ == old(registry).offsets@,
        final(features).payable == old(features).payable,
{
    let mut p: usize = 0;
    while p < sig.params.len()
        invariant
            p <= sig.params@.len(),
            forall|i: int| 0 <= i < p ==> is_integer(#[trigger] sig.params@[i]),
        decreases sig.params@.len() - p,
    {
        if !is_integer_kind(sig.params[p]) {
            return Err(TranslateError::UnsupportedType { kind: sig.params[p] });
        }
        p = p + 1;
    }
    let param_count = sig.params.len();
    if sig.results.len() > 1 {
        return Err(TranslateError::MultiValueReturn);
    }
    if let Some(start) = module.start {
        if start as usize != function_index {
            return Err(TranslateError::RuntimeHelperRequired { name: "memory.init".to_string() });
        }
    }
    let return_kind: &'static str = if sig.results.len() == 1 {
        wasm_val_type_to_manifest(sig.results[0])?
    } else {
        "Void"
    };
    let declared = count_declared_locals(&body.locals)?;

    let lower = lower_bytes(function_name.as_bytes());
    let marker: [u8; 14] = [111, 110, 110, 101, 112, 49, 55, 112, 97, 121, 109, 101, 110, 116];
    let marker_snake: [u8; 16] = [111, 110, 95, 110, 101, 112, 49, 55, 95, 112, 97, 121, 109, 101, 110, 116];
    proof {
        assert(marker@ =~= seq![111u8, 110, 110, 101, 112, 49, 55, 112, 97, 121, 109, 101, 110, 116]);
        assert(marker_snake@ =~= seq![111u8, 110, 95, 110, 101, 112, 49, 55, 95, 112, 97, 121, 109, 101, 110, 116]);
    }
    let is_on_nep17_payment = bytes_contains(lower.as_slice(), marker.as_slice())
        || bytes_contains(lower.as_slice(), marker_snake.as_slice());
    let use_adapter = is_on_nep17_payment && param_count >= 3;
    let helper_local_base = declared;
    let local_count: u32 = if use_adapter {
        match declared.checked_add(ON_NEP17_PAYMENT_CONFIG_SLOT_COUNT) {
            Some(n) => n,
            None => {
                return Err(TranslateError::LocalCountOverflow);
            },
        }
    } else {
        declared
    };
    emit_function_prologue(script, local_count, param_count)?;
    let ghost s_pro = script@;
    if use_adapter {
        emit_on_nep17_payment_config_adapter(script, helper_local_base)?;
    }
    proof {
        assert(s_pro.subrange(0, s_pro.len() as int) =~= s_pro);
        assert(keeps_prefix(s_pro, script@, s_pro.len() as int));
    }

    let mut local_states: Vec<LocalState> = Vec::new();
    let mut k: usize = 0;
    while k < param_count
        invariant
            k <= param_count <= 255,
            local_states@.len() == k,
            forall|j: int| 0 <= j < local_states@.len() ==> gettable(#[trigger] local_states@[j]),
        decreases param_count - k,
    {
        local_states.push(LocalState { kind: LocalKind::Param(k as u32), const_value: None });
        k = k + 1;
    }
    let mut next_slot: u32 = 0;
    let mut run: usize = 0;
    proof {
        assert(body.locals@.subrange(0, 0).len() == 0);
    }
    while run < body.locals.len()
        invariant
            run <= body.locals@.len(),
            param_count == sig.params@.len(),
            declared == declared_local_count(body.locals@),
            declared <= 255,
            next_slot == declared_local_count(body.locals@.subrange(0, run as int)),
            local_states@.len() == param_count + next_slot,
            forall|j: int| 0 <= j < local_states@.len() ==> gettable(#[trigger] local_states@[j]),
        decreases body.locals@.len() - run,
    {
        let (count, _kind) = body.locals[run];
        proof {
            assert(body.locals@.subrange(0, run + 1).drop_last() =~= body.locals@.subrange(
                0,
                run as int,
            ));
            lemma_declared_count_prefix(body.locals@, run + 1);
        }
        let mut c: u32 = 0;
        while c < count
            invariant
                c <= count,
                count == body.locals@[run as int].0,
                run < body.locals@.len(),
                param_count == sig.params@.len(),
                declared == declared_local_count(body.locals@),
                declared <= 255,
                declared_local_count(body.locals@.subrange(0, run as int)) + count <= declared,
                next_slot == declared_local_count(body.locals@.subrange(0, run as int)) + c,
                local_states@.len() == param_count + next_slot,
                forall|j: int| 0 <= j < local_states@.len() ==> gettable(#[trigger] local_states@[j]),
            decreases count - c,
        {
            local_states.push(LocalState { kind: LocalKind::Local(next_slot), const_value: Some(0) });
            next_slot = match next_slot.checked_add(1) {
                Some(n) => n,
                None => {
                    return Err(TranslateError::LocalCountOverflow);
                },
            };
            c = c + 1;
        }
        run = run + 1;
    }
    proof {
        assert(body.locals@.subrange(0, body.locals@.len() as int) =~= body.locals@);
    }

    if !registry.contains_index(function_index) {
        return Err(TranslateError::FunctionIndexOutOfRange { index: function_index as u32 });
    }
    let mut stack: Vec<StackValue> = Vec::new();
    let mut control_stack: Vec<ControlFrame> = Vec::new();
    let mut is_unreachable = false;
    control_stack.push(
        new_frame(ControlKind::Function, 0, sig.results.len(), script.len(), None, true),
    );

    let ghost body_start = script@;
    let ghost p = script@.len() as int;
    let ghost f0 = control_stack@[0];
    let ghost nl = sig.params@.len() + declared_local_count(body.locals@);
    let ghost nr = sig.results@.len() as int;
    let ghost h0 = straight_line(body.ops@, 0, nl, nr);
    let ghost hf = reaches_unsupported(body.ops@);
    proof {
        assert(body_start.subrange(0, p) =~= body_start.subrange(0, p));
        assert(body.ops@.subrange(0, body.ops@.len() as int) =~= body.ops@);
        assert(control_stack@ =~= seq![f0]);
        assert(frame_after(control_stack@[0], p));
        assert forall|k: int| 0 <= k < control_stack@.len() implies #[trigger] frame_after(
            control_stack@[k],
            p,
        ) by {}
    }
    let mut floor: usize = script.len();
    let mut i: usize = 0;
    while i < body.ops.len()
        invariant
            i <= body.ops@.len(),
            registry.offsets@ == old(registry).offsets@,
            features.payable == old(features).payable,
            p == body_start.len(),
            keeps_prefix(body_start, script@, p),
            values_after(stack@, p),
            frames_after(control_stack@, p),
            local_states@.len() == nl,
            nl == sig.params@.len() + declared_local_count(body.locals@),
            nr == sig.results@.len(),
            f0.kind == ControlKind::Function && f0.stack_height == 0 && f0.result_count == nr
                && f0.end_fixups@.len() == 0 && f0.if_false_fixup is None,
            nr <= 1,
            h0 == straight_line(body.ops@, 0, nl, nr),
            hf == reaches_unsupported(body.ops@),
            hf ==> i < body.ops@.len() && reaches_unsupported(
                body.ops@.subrange(i as int, body.ops@.len() as int),
            ) && !is_unreachable,
            h0 ==> registry.pending@ == old(registry).pending@,
            h0 ==> (i < body.ops@.len() && straight_line(
                body.ops@.subrange(i as int, body.ops@.len() as int),
                stack@.len() as int,
                nl,
                nr,
            ) && control_stack@ == seq![f0] && !is_unreachable && forall|j: int|
                0 <= j < local_states@.len() ==> gettable(#[trigger] local_states@[j])) || (i
                == body.ops@.len() && control_stack@.len() == 0),
        decreases body.ops@.len() - i,
    {
        let op = &body.ops[i];
        let ghost s_old = body.ops@.subrange(i as int, body.ops@.len() as int);
        proof {
            let s = body.ops@.subrange(i as int, body.ops@.len() as int);
            assert(s.subrange(1, s.len() as int) =~= body.ops@.subrange(i + 1, body.ops@.len() as int));
            assert(s[0] == body.ops@[i as int]);
        }
        i = i + 1;
        let ghost before = script@;
        if is_unreachable {
            let _ = translate_control(
                op,
                script,
                &module.types,
                &mut stack,
                &mut control_stack,
                &mut is_unreachable,
                Ghost(p),
            )?;
            floor = script.len();
            proof {
                lemma_keeps_prefix_trans(body_start, before, script@, p);
            }
            continue;
        }
        if translate_numeric(op, script, &mut stack, Ghost(p))? {
            proof {
                lemma_keeps_prefix_trans(body_start, before, script@, p);
                if hf {
                    lemma_reaches_unsupported_step(s_old);
                }
                if h0 {
                    let rest = body.ops@.subrange(i as int, body.ops@.len() as int);
                    assert(straight_line(rest, stack@.len() as int, nl, nr));
                    lemma_straight_line_nonempty(rest, stack@.len() as int, nl, nr);
                }
            }
            continue;
        }
        if translate_control(
            op,
            script,
            &module.types,
            &mut stack,
            &mut control_stack,
            &mut is_unreachable,
            Ghost(p),
        )? {
            floor = script.len();
            proof {
                lemma_keeps_prefix_trans(body_start, before, script@, p);
            }
            continue;
        }
        if translate_locals(op, script, &mut stack, &mut local_states, floor, Ghost(p))? {
            proof {
                lemma_keeps_prefix_trans(body_start, before, script@, p);
                if hf {
                    lemma_reaches_unsupported_step(s_old);
                }
                if h0 {
                    let rest = body.ops@.subrange(i as int, body.ops@.len() as int);
                    assert(straight_line(rest, stack@.len() as int, nl, nr));
                    lemma_straight_line_nonempty(rest, stack@.len() as int, nl, nr);
                }
            }
            continue;
        }
        if translate_calls(
            op,
            script,
            module,
            registry,
            &mut stack,
            features,
            &mut is_unreachable,
            Ghost(p),
        )? {
            proof {
                lemma_keeps_prefix_trans(body_start, before, script@, p);
            }
            continue;
        }
        return Err(unsupported_operator_error(op));
    }
    let ghost before_ret = script@;
    script.push(RET);
    proof {
        lemma_keeps_prefix_append(before_ret, seq![RET], p);
        assert(script@ =~= before_ret + seq![RET]);
        lemma_keeps_prefix_trans(body_start, before_ret, script@, p);
        lemma_keeps_prefix_shorter(body_start, script@, p, s_pro.len() as int);
        lemma_keeps_prefix_trans(s_pro, body_start, script@, s_pro.len() as int);
    }
    if control_stack.len() > 0 {
        return Err(TranslateError::UnclosedBlock);
    }
    Ok(return_kind)
}

/// The error for an operator that no translation step handles.
fn unsupported_operator_error(op: &WasmOp) -> (r: TranslateError)
    ensures
        match *op {
            WasmOp::Unsupported { class: Unsupported::NotEmitted, name } => r == (
            TranslateError::RuntimeHelperRequired { name }),
            WasmOp::Unsupported { class, name } => r == (TranslateError::UnsupportedOperator {
                class,
                name,
            }),
            _ => r matches TranslateError::UnsupportedOperator { class: Unsupported::Other, name }
                && name@.len() == 0,
        },
{
    match op {
        WasmOp::Unsupported { class: Unsupported::NotEmitted, name } => {
            TranslateError::RuntimeHelperRequired { name: name.clone() }
        },
        WasmOp::Unsupported { class, name } => {
            TranslateError::UnsupportedOperator { class: *class, name: name.clone() }
        },
        _ => TranslateError::UnsupportedOperator { class: Unsupported::Other, name: String::new() },
    }
}

} // verus!
