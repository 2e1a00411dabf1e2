//! Function parameters and locals, with tracking of the constants they hold.

use vstd::prelude::*;

use crate::emit::{
    emit_load_arg, emit_load_local_slot, emit_push_int, emit_store_arg, emit_store_local_slot,
    push_int_bytes, slot_bytes, SlotOp, StackValue,
};
use crate::errors::TranslateError;

verus! {

/// Where a Wasm local lives on NeoVM.
#[derive(Debug, Clone, Copy, PartialEq, Eq, Structural)]
pub enum LocalKind {
    /// An argument slot.
    Param(u32),
    /// A local slot.
    Local(u32),
}

/// One Wasm local: its slot and, when known, the constant it holds.
#[derive(Debug, Clone, Copy, PartialEq, Eq, Structural)]
pub struct LocalState {
    pub kind: LocalKind,
    pub const_value: Option<i128>,
}

/// The instruction that loads a local from its slot.
pub open spec fn load_bytes(kind: LocalKind) -> Seq<u8> {
    match kind {
        LocalKind::Param(i) => slot_bytes(SlotOp::LoadArg, i as int),
        LocalKind::Local(i) => slot_bytes(SlotOp::LoadLocal, i as int),
    }
}

/// The instruction that stores the top value into a local's slot.
pub open spec fn store_bytes(kind: LocalKind) -> Seq<u8> {
    match kind {
        LocalKind::Param(i) => slot_bytes(SlotOp::StoreArg, i as int),
        LocalKind::Local(i) => slot_bytes(SlotOp::StoreLocal, i as int),
    }
}

/// Whether a local's slot fits the one-byte operand of the slot instructions.
pub open spec fn slot_addressable(kind: LocalKind) -> bool {
    match kind {
        LocalKind::Param(i) => i <= 255,
        LocalKind::Local(i) => i <= 255,
    }
}

/// `local.get`: a local known to hold a constant is pushed as that constant; otherwise it is
/// loaded from its slot.
pub fn emit_local_get(script: &mut Vec<u8>, state: &LocalState) -> (r: Result<
    StackValue,
    TranslateError,
>)
    ensures
        match state.const_value {
            Some(v) => r == Ok::<StackValue, TranslateError>(
                StackValue {
                    const_value: Some(v),
                    bytecode_start: Some(old(script)@.len() as usize),
                },
            ) && final(script)@ == old(script)@ + push_int_bytes(v as int),
            None => (r is Ok <==> slot_addressable(state.kind)) && (r matches Ok(sv) ==> sv
                == StackValue { const_value: None, bytecode_start: None } && final(script)@ == old(script)@ + load_bytes(state.kind)),
        },
{
    if let Some(value) = state.const_value {
        return Ok(emit_push_int(script, value));
    }
    match state.kind {
        LocalKind::Param(index) => emit_load_arg(script, index)?,
        LocalKind::Local(slot) => emit_load_local_slot(script, slot)?,
    }
    Ok(StackValue::unknown())
}

/// `local.set`: stores the top value and remembers the constant it is known to be, if any.
pub fn emit_local_set(script: &mut Vec<u8>, state: &mut LocalState, value: &StackValue) -> (r:
    Result<(), TranslateError>)
    ensures
        r is Ok <==> slot_addressable(old(state).kind),
        r is Ok ==> final(script)@ == old(script)@ + store_bytes(old(state).kind) && *final(state)
            == (LocalState { kind: old(state).kind, const_value: value.const_value }),
{
    match state.kind {
        LocalKind::Param(index) => emit_store_arg(script, index)?,
        LocalKind::Local(slot) => emit_store_local_slot(script, slot)?,
    }
    state.const_value = value.const_value;
    Ok(())
}

} // verus!
