//! Calls to imported functions: NeoVM instructions, interop services and Neo helpers.
//!
//! An import from module `opcode` emits the named NeoVM instruction, taking a constant argument
//! as its immediate; an import from module `syscall` emits a SYSCALL of the named interop service;
//! an import from module `neo` emits the service behind a Neo helper name.

use vstd::prelude::*;

use crate::emit::{
    emit_push_data, emit_push_int, push_int_bytes, keeps_prefix, lemma_keeps_prefix_append, lemma_keeps_prefix_cut,
    lemma_keeps_prefix_trans, literal_len_of, push_data_bytes, values_after, StackValue,
};
use crate::errors::TranslateError;
use crate::le::{
    le_encode, le_encode_signed, lemma_pow256_values, pow256, pow256_exec, push_le_bytes, twos,
};
use crate::features::{is_storage_descriptor, FeatureTracker};
use crate::module::{FuncSig, FunctionImport, ValKind};
use crate::opcodes::{
    lookup_opcode, opcode_named, spec_opcode_info, OpcodeInfo, CAT, CONVERT, DROP, PUSH0, PUSH8,
    SUBSTR, SYSCALL,
};
use crate::syscalls::{lookup, spec_lookup, SyscallInfo};
use crate::text::{eq_ignore_case, str_eq_ignore_case, str_equal};
use vstd::string::{StringExecFns, StringSliceAdditionalSpecFns};
use vstd::utf8::encode_utf8;

verus! {

/// The NeoVM stack item type of a byte string.
pub const STACKITEMTYPE_BYTESTRING: u8 = 0x28;

/// The type index of an imported function.
pub fn get_import_type_index(import: &FunctionImport) -> (r: u32)
    ensures
        r == import.type_index,
{
    import.type_index
}

/// Checks that an import receives exactly `expected` arguments.
pub fn ensure_param_count(params: &Vec<StackValue>, expected: usize) -> (r: Result<(), TranslateError>)
    ensures
        r is Ok <==> params@.len() == expected,
        r is Err ==> r == Err::<(), TranslateError>(
            TranslateError::ImportParamCount { expected, found: params@.len() as usize },
        ),
{
    if params.len() != expected {
        return Err(TranslateError::ImportParamCount { expected, found: params.len() });
    }
    Ok(())
}

/// The length of the integer-literal instruction at `start`.
pub fn literal_instruction_len(script: &Vec<u8>, start: usize) -> (r: Result<usize, TranslateError>)
    ensures
        r is Ok <==> start < script@.len() && literal_len_of(script@[start as int]) is Some
            && start + literal_len_of(script@[start as int])->0 <= script@.len(),
        r matches Ok(len) ==> len == literal_len_of(script@[start as int])->0,
{
    if start >= script.len() {
        return Err(TranslateError::InvalidLiteralStart { start });
    }
    let opcode = script[start];
    let len: usize = if opcode == crate::opcodes::PUSHM1 || (crate::opcodes::PUSH0 <= opcode
        && opcode <= crate::opcodes::PUSH16) {
        1
    } else if opcode == crate::opcodes::PUSHINT8 {
        2
    } else if opcode == crate::opcodes::PUSHINT16 {
        3
    } else if opcode == crate::opcodes::PUSHINT32 {
        5
    } else if opcode == crate::opcodes::PUSHINT64 {
        9
    } else if opcode == crate::opcodes::PUSHINT128 {
        17
    } else {
        return Err(TranslateError::UnknownLiteralOpcode { opcode });
    };
    if len > script.len() - start {
        return Err(TranslateError::InvalidLiteralStart { start });
    }
    Ok(len)
}

/// Whether `v` fits an immediate of `bytes` bytes, read as signed or as unsigned.
pub open spec fn fits_immediate(v: int, bytes: nat) -> bool {
    bytes >= 16 || (-(pow256(bytes) / 2) <= v && v < pow256(bytes))
}

/// Whether the constant `param` can be taken as an immediate of `max_bytes` bytes: it is a
/// constant that fits, pushed by a whole literal instruction of `script`.
pub open spec fn literal_takeable(script: Seq<u8>, param: StackValue, max_bytes: nat) -> bool {
    &&& param.const_value is Some
    &&& 1 <= max_bytes <= 32
    &&& fits_immediate(param.const_value->0 as int, max_bytes)
    &&& param.bytecode_start is Some
    &&& ({
        let start = param.bytecode_start->0;
        &&& start < script.len()
        &&& literal_len_of(script[start as int]) is Some
        &&& start + literal_len_of(script[start as int])->0 <= script.len()
    })
}

/// Whether the instruction `info` can be emitted with the arguments `params`: it has no
/// variable-size operand, and either no immediate and no argument, or an immediate of 1, 2, 4,
/// 8, 16 or 32 bytes taken from its one constant argument.
pub open spec fn opcode_call_ok(script: Seq<u8>, info: OpcodeInfo, params: Seq<StackValue>) -> bool {
    &&& info.operand_size_prefix == 0
    &&& if info.operand_size == 0 {
        params.len() == 0
    } else {
        let size = info.operand_size;
        &&& params.len() == 1
        &&& (size == 1 || size == 2 || size == 4 || size == 8 || size == 16 || size == 32)
        &&& literal_takeable(script, params[0], size as nat)
    }
}

/// `script` once the constant `param` is taken as an immediate: the literal that pushed it is
/// cut off when it is the last instruction, and a DROP discards it at run time otherwise.
pub open spec fn literal_taken(script: Seq<u8>, param: StackValue) -> Seq<u8> {
    let start = param.bytecode_start->0 as int;
    if start + literal_len_of(script[start])->0 == script.len() {
        script.subrange(0, start)
    } else {
        script.push(DROP)
    }
}

/// Taking a constant pushed at or after position `n` keeps the first `n` bytes.
pub proof fn lemma_keeps_prefix_literal_taken(script: Seq<u8>, param: StackValue, n: int)
    requires
        param.bytecode_start is Some,
        0 <= n <= param.bytecode_start->0 < script.len(),
    ensures
        keeps_prefix(script, literal_taken(script, param), n),
{
    let start = param.bytecode_start->0 as int;
    if start + literal_len_of(script[start])->0 == script.len() {
        lemma_keeps_prefix_cut(script, start, n);
    } else {
        lemma_keeps_prefix_append(script, seq![DROP], n);
        assert(script.push(DROP) =~= script + seq![DROP]);
    }
}

/// Takes a constant argument as an immediate: the literal that pushed it is removed from the
/// script when it is the last instruction, and dropped at run time otherwise.
pub fn truncate_literal(param: &StackValue, script: &mut Vec<u8>, max_bytes: usize) -> (r: Result<
    i128,
    TranslateError,
>)
    ensures
        r is Ok <==> literal_takeable(old(script)@, *param, max_bytes as nat),
        r matches Ok(v) ==> Some(v) == param.const_value && final(script)@ == literal_taken(
            old(script)@,
            *param,
        ),
        r is Err ==> final(script)@ == old(script)@,
{
    let value = match param.const_value {
        Some(v) => v,
        None => {
            return Err(TranslateError::ArgumentNotConstant);
        },
    };
    if max_bytes == 0 || max_bytes > 32 {
        return Err(TranslateError::UnsupportedImmediateWidth { bytes: max_bytes });
    }
    if max_bytes < 16 {
        let p = pow256_exec(max_bytes);
        proof {
            lemma_pow256_values();
            crate::le::lemma_pow256_add(max_bytes as nat, (15 - max_bytes) as nat);
            crate::le::lemma_pow256_positive((15 - max_bytes) as nat);
            assert(pow256(max_bytes as nat) <= pow256(15)) by (nonlinear_arith)
                requires
                    pow256(15) == pow256(max_bytes as nat) * pow256((15 - max_bytes) as nat),
                    pow256((15 - max_bytes) as nat) >= 1,
            ;
        }
        let p = p as i128;
        let half = p / 2;
        if !(-half <= value && value < p) {
            return Err(TranslateError::LiteralTooWide { value, bytes: max_bytes });
        }
    }
    let start = match param.bytecode_start {
        Some(s) => s,
        None => {
            return Err(TranslateError::ArgumentNotLiteral);
        },
    };
    if start >= script.len() {
        return Err(TranslateError::InvalidLiteralStart { start });
    }
    let literal_len = literal_instruction_len(script, start)?;
    if start + literal_len == script.len() {
        script.truncate(start);
    } else {
        script.push(DROP);
    }
    Ok(value)
}

/// The 32-byte little-endian two's-complement form of a 16-byte value.
pub open spec fn sign_extended_32(value: i128) -> Seq<u8> {
    le_encode_signed(value as int, 16) + Seq::new(16, |i: int| if value < 0 { 0xFFu8 } else { 0u8 })
}

/// The low 16 bytes of `value` in little-endian order.
fn le_bytes_16(value: i128) -> (r: Vec<u8>)
    ensures
        r@ == le_encode_signed(value as int, 16),
{
    proof {
        lemma_pow256_values();
    }
    let u: u128 = if value < 0 {
        let shifted = (value + 1) + 0x7fff_ffff_ffff_ffff_ffff_ffff_ffff_ffff;
        (shifted as u128) + 0x8000_0000_0000_0000_0000_0000_0000_0000
    } else {
        value as u128
    };
    let mut out: Vec<u8> = Vec::new();
    push_le_bytes(&mut out, u, 16);
    assert(out@ =~= le_encode(twos(value as int, 16), 16));
    out
}

/// Sign-extends a 16-byte value to a 32-byte immediate.
pub fn sign_extend_i128_to_32(value: i128) -> (r: [u8; 32])
    ensures
        r@ == sign_extended_32(value),
{
    let fill: u8 = if value < 0 { 0xFF } else { 0x00 };
    let low = le_bytes_16(value);
    proof {
        crate::le::lemma_le_encode_len(twos(value as int, 16), 16);
    }
    let mut bytes = [fill; 32];
    let mut i: usize = 0;
    while i < 16
        invariant
            i <= 16,
            low@.len() == 16,
            bytes@.len() == 32,
            forall|j: int| 0 <= j < i ==> bytes@[j] == low@[j],
            forall|j: int| 16 <= j < 32 ==> bytes@[j] == fill,
        decreases 16 - i,
    {
        bytes[i] = low[i];
        i = i + 1;
    }
    assert(bytes@ =~= sign_extended_32(value));
    bytes
}

/// The immediate of `size` bytes that encodes the constant `v`.
pub open spec fn immediate_bytes(v: i128, size: nat) -> Seq<u8> {
    if size == 16 {
        le_encode_signed(v as int, 16)
    } else if size == 32 {
        sign_extended_32(v)
    } else {
        le_encode((v as int % pow256(size) as int) as nat, size)
    }
}

/// Writes the immediate of `size` bytes (1, 2, 4, 8, 16 or 32) that encodes `v`.
fn push_immediate(script: &mut Vec<u8>, v: i128, size: u8)
    requires
        size == 1 || size == 2 || size == 4 || size == 8 || size == 16 || size == 32,
    ensures
        final(script)@ == old(script)@ + immediate_bytes(v, size as nat),
{
    proof {
        lemma_pow256_values();
    }
    if size == 16 {
        let bytes = le_bytes_16(v);
        let mut i: usize = 0;
        let ghost s0 = script@;
        proof {
            crate::le::lemma_le_encode_len(twos(v as int, 16), 16);
        }
        while i < 16
            invariant
                i <= 16,
                bytes@.len() == 16,
                script@ == s0 + bytes@.subrange(0, i as int),
            decreases 16 - i,
        {
            script.push(bytes[i]);
            i = i + 1;
            assert(script@ =~= s0 + bytes@.subrange(0, i as int));
        }
        assert(bytes@.subrange(0, 16) =~= bytes@);
    } else if size == 32 {
        let bytes = sign_extend_i128_to_32(v);
        let mut i: usize = 0;
        let ghost s0 = script@;
        while i < 32
            invariant
                i <= 32,
                bytes@.len() == 32,
                script@ == s0 + bytes@.subrange(0, i as int),
            decreases 32 - i,
        {
            script.push(bytes[i]);
            i = i + 1;
            assert(script@ =~= s0 + bytes@.subrange(0, i as int));
        }
        assert(bytes@.subrange(0, 32) =~= bytes@);
    } else {
        let p = pow256_exec(size as usize) as i128;
        let u = match v.checked_rem_euclid(p) {
            Some(u) => u,
            None => 0,
        };
        push_le_bytes(script, u as u128, size as usize);
    }
}

/// Emits an instruction imported from the `opcode` module.
///
/// `raw` and `raw4` write their constant argument as one or four bytes; any other name is a
/// NeoVM instruction, whose fixed-size immediate, if it has one, is the constant argument.
#[verifier::spinoff_prover]
#[verifier::rlimit(30)]
pub fn emit_opcode_call(
    import: &FunctionImport,
    func_type: &FuncSig,
    params: &Vec<StackValue>,
    script: &mut Vec<u8>,
) -> (r: Result<(), TranslateError>)
    ensures
        func_type.results@.len() > 0 ==> r is Err,
        func_type.params@.len() != params@.len() ==> r is Err,
        r is Err ==> final(script)@ == old(script)@,
        func_type.results@.len() == 0 && func_type.params@.len() == params@.len() ==> {
            let name = encode_utf8(import.name@);
            if eq_ignore_case(name, "raw".spec_bytes()) {
                r is Ok <==> params@.len() == 1 && literal_takeable(old(script)@, params@[0], 1)
            } else if eq_ignore_case(name, "raw4".spec_bytes()) {
                r is Ok <==> params@.len() == 1 && literal_takeable(old(script)@, params@[0], 4)
            } else {
                &&& (r is Ok ==> exists|info: OpcodeInfo|
                    #[trigger] opcode_named(info.byte, name) && spec_opcode_info(info.byte) == Some(
                        info,
                    ) && opcode_call_ok(old(script)@, info, params@))
                &&& ((exists|b: u8| #[trigger] opcode_named(b, name)) && (forall|info: OpcodeInfo|
                    #[trigger] opcode_named(info.byte, name) && spec_opcode_info(info.byte) == Some(
                        info,
                    ) ==> opcode_call_ok(old(script)@, info, params@)) ==> r is Ok)
            }
        },
        r is Ok && eq_ignore_case(encode_utf8(import.name@), "raw".spec_bytes()) ==> params@.len()
            == 1 && final(script)@ == literal_taken(old(script)@, params@[0]) + immediate_bytes(
            params@[0].const_value->0,
            1,
        ),
        r is Ok && !eq_ignore_case(encode_utf8(import.name@), "raw".spec_bytes()) && eq_ignore_case(
            encode_utf8(import.name@),
            "raw4".spec_bytes(),
        ) ==> params@.len() == 1 && final(script)@ == literal_taken(old(script)@, params@[0])
            + immediate_bytes(params@[0].const_value->0, 4),
        r is Ok && !eq_ignore_case(encode_utf8(import.name@), "raw".spec_bytes()) && !eq_ignore_case(
            encode_utf8(import.name@),
            "raw4".spec_bytes(),
        ) ==> exists|info: OpcodeInfo|
            #[trigger] opcode_named(info.byte, encode_utf8(import.name@)) && spec_opcode_info(
                info.byte,
            ) == Some(info) && info.operand_size_prefix == 0 && if info.operand_size == 0 {
                params@.len() == 0 && final(script)@ == old(script)@.push(info.byte)
            } else {
                params@.len() == 1 && final(script)@ == literal_taken(
                    old(script)@,
                    params@[0],
                ).push(info.byte) + immediate_bytes(
                    params@[0].const_value->0,
                    info.operand_size as nat,
                )
            },
        r is Ok ==> forall|n: int|
            0 <= n <= old(script)@.len() && values_after(params@, n) ==> #[trigger] keeps_prefix(
                old(script)@,
                final(script)@,
                n,
            ),
{
    if func_type.results.len() > 0 {
        return Err(TranslateError::OpcodeImportReturnsValue { name: import.name.clone() });
    }
    if func_type.params.len() != params.len() {
        return Err(
            TranslateError::ImportParamCount {
                expected: func_type.params.len(),
                found: params.len(),
            },
        );
    }
    let name = import.name.as_str();
    if str_eq_ignore_case(name, "raw") {
        ensure_param_count(params, 1)?;
        let value = truncate_literal(&params[0], script, 1)?;
        let ghost taken = script@;
        push_immediate(script, value, 1);
        proof {
            assert(script@.subrange(0, taken.len() as int) =~= taken);
            lemma_literal_taken_then(old(script)@, taken, script@, params@);
        }
        return Ok(());
    }
    if str_eq_ignore_case(name, "raw4") {
        ensure_param_count(params, 1)?;
        let value = truncate_literal(&params[0], script, 4)?;
        let ghost taken = script@;
        push_immediate(script, value, 4);
        proof {
            assert(script@.subrange(0, taken.len() as int) =~= taken);
            lemma_literal_taken_then(old(script)@, taken, script@, params@);
        }
        return Ok(());
    }
    let info = match lookup_opcode(name) {
        Some(info) => info,
        None => {
            return Err(TranslateError::UnknownOpcodeImport { name: import.name.clone() });
        },
    };
    if info.operand_size_prefix != 0 {
        return Err(TranslateError::VariableSizeOperand { name: import.name.clone() });
    }
    if info.operand_size == 0 {
        if params.len() > 0 {
            return Err(TranslateError::OpcodeTakesNoImmediate { name: import.name.clone() });
        }
        script.push(info.byte);
        proof {
            assert forall|n: int|
                0 <= n <= old(script)@.len() && values_after(params@, n) implies #[trigger] keeps_prefix(
                old(script)@,
                script@,
                n,
            ) by {
                lemma_keeps_prefix_append(old(script)@, seq![info.byte], n);
                assert(script@ =~= old(script)@ + seq![info.byte]);
            }
        }
        return Ok(());
    }
    ensure_param_count(params, 1)?;
    let size = info.operand_size;
    if !(size == 1 || size == 2 || size == 4 || size == 8 || size == 16 || size == 32) {
        return Err(TranslateError::UnsupportedOperandSize { size });
    }
    let immediate = truncate_literal(&params[0], script, size as usize)?;
    let ghost taken = script@;
    script.push(info.byte);
    push_immediate(script, immediate, size);
    proof {
        assert(script@.subrange(0, taken.len() as int) =~= taken);
        lemma_literal_taken_then(old(script)@, taken, script@, params@);
    }
    Ok(())
}

/// After a constant argument is taken, appending keeps every prefix that ends at or before the
/// constants of the arguments.
proof fn lemma_literal_taken_then(
    before: Seq<u8>,
    taken: Seq<u8>,
    after: Seq<u8>,
    params: Seq<StackValue>,
)
    requires
        params.len() == 1,
        params[0].bytecode_start is Some,
        params[0].bytecode_start->0 < before.len(),
        taken == literal_taken(before, params[0]),
        taken.len() <= after.len(),
        after.subrange(0, taken.len() as int) == taken,
    ensures
        forall|n: int|
            0 <= n <= before.len() && values_after(params, n) ==> #[trigger] keeps_prefix(
                before,
                after,
                n,
            ),
{
    assert forall|n: int| 0 <= n <= before.len() && values_after(params, n) implies #[trigger] keeps_prefix(
        before,
        after,
        n,
    ) by {
        assert(params[0].bytecode_start is Some);
        assert(n <= params[0].bytecode_start->0);
        lemma_keeps_prefix_literal_taken(before, params[0], n);
        assert(after.subrange(0, n) =~= taken.subrange(0, n));
    }
}

/// The bytes of a SYSCALL of the service with identifier `hash`.
pub open spec fn syscall_bytes(hash: u32) -> Seq<u8> {
    seq![SYSCALL] + le_encode(hash as nat, 4)
}

/// Emits a SYSCALL of an interop service.
fn emit_syscall_of(script: &mut Vec<u8>, info: SyscallInfo)
    ensures
        final(script)@ == old(script)@ + syscall_bytes(info.hash),
{
    script.push(SYSCALL);
    push_le_bytes(script, info.hash as u128, 4);
    assert(final(script)@ =~= old(script)@ + syscall_bytes(info.hash));
}

/// Emits a SYSCALL of the interop service an import from the `syscall` module names, and
/// returns the service's descriptor.
pub fn emit_syscall_call(import: &FunctionImport, script: &mut Vec<u8>) -> (r: Result<
    &'static str,
    TranslateError,
>)
    ensures
        match spec_lookup(encode_utf8(import.name@)) {
            Some(info) => r == Ok::<&'static str, TranslateError>(info.name) && final(script)@ == old(script)@ + syscall_bytes(info.hash),
            None => r == Err::<&'static str, TranslateError>(
                TranslateError::UnknownSyscall { name: import.name },
            ) && final(script)@ == old(script)@,
        },
{
    match lookup(import.name.as_str()) {
        Some(info) => {
            emit_syscall_of(script, info);
            Ok(info.name)
        },
        None => Err(TranslateError::UnknownSyscall { name: import.name.clone() }),
    }
}


/// The descriptor of the witness-checking interop service.
pub const CHECK_WITNESS: &'static str = "System.Runtime.CheckWitness";

/// Emits a SYSCALL of `System.Runtime.CheckWitness` and returns its descriptor.
fn emit_check_witness(script: &mut Vec<u8>) -> (r: Result<&'static str, TranslateError>)
    ensures
        match spec_lookup(CHECK_WITNESS.spec_bytes()) {
            Some(info) => r == Ok::<&'static str, TranslateError>(info.name) && final(script)@
                == old(script)@ + syscall_bytes(info.hash),
            None => r is Err && final(script)@ == old(script)@,
        },
{
    match lookup(CHECK_WITNESS) {
        Some(info) => {
            emit_syscall_of(script, info);
            Ok(info.name)
        },
        None => Err(TranslateError::UnknownSyscall { name: CHECK_WITNESS.to_owned() }),
    }
}

/// The interop service that a DevPack alias of the `neo` module stands for: `storage_get`
/// reads storage and `call_contract` calls a contract.
pub open spec fn neo_alias(name: Seq<u8>) -> Option<Seq<u8>> {
    if name == "storage_get".spec_bytes() {
        Some("System.Storage.Get".spec_bytes())
    } else if name == "call_contract".spec_bytes() {
        Some("System.Contract.Call".spec_bytes())
    } else {
        None
    }
}

/// The descriptor that a DevPack alias of the `neo` module stands for.
pub fn neo_alias_descriptor(name: &str) -> (r: Option<&'static str>)
    ensures
        match neo_alias(name.spec_bytes()) {
            Some(d) => r matches Some(s) && s.spec_bytes() == d,
            None => r is None,
        },
{
    if str_equal(name, "storage_get") {
        Some("System.Storage.Get")
    } else if str_equal(name, "call_contract") {
        Some("System.Contract.Call")
    } else {
        None
    }
}

/// The interop service that a call of the `neo` import `name` reaches:
/// `runtime_check_witness_hash` checks a witness, and a DevPack alias reaches the service it
/// stands for.
pub open spec fn neo_call_service(name: Seq<u8>) -> Option<SyscallInfo> {
    if eq_ignore_case(name, "runtime_check_witness_hash".spec_bytes()) {
        spec_lookup(CHECK_WITNESS.spec_bytes())
    } else {
        match neo_alias(name) {
            Some(d) => spec_lookup(d),
            None => None,
        }
    }
}

/// The code before the SYSCALL of a `neo` import call: the witness check first converts its
/// account to a byte string.
pub open spec fn neo_call_prefix(name: Seq<u8>) -> Seq<u8> {
    if eq_ignore_case(name, "runtime_check_witness_hash".spec_bytes()) {
        seq![CONVERT, STACKITEMTYPE_BYTESTRING]
    } else {
        Seq::empty()
    }
}

/// What a call of the `neo` import `name` becomes: the code of [`neo_call_prefix`] and a
/// SYSCALL of the service of [`neo_call_service`], whose descriptor is returned; a name that
/// is neither the witness check nor an alias is unknown and leaves the script alone.
pub open spec fn neo_call_outcome(
    name: Seq<u8>,
    before: Seq<u8>,
    after: Seq<u8>,
    r: Result<&'static str, TranslateError>,
    import_name: String,
) -> bool {
    match neo_call_service(name) {
        Some(info) => r == Ok::<&'static str, TranslateError>(info.name) && after == before
            + neo_call_prefix(name) + syscall_bytes(info.hash),
        None => r is Err && (!eq_ignore_case(name, "runtime_check_witness_hash".spec_bytes())
            && neo_alias(name) is None ==> r == Err::<&'static str, TranslateError>(
            TranslateError::UnknownNeoImport { name: import_name },
        ) && after == before),
    }
}

/// Emits the service behind an import from the `neo` module and returns its descriptor, as
/// [`neo_call_outcome`] says.
pub fn emit_neo_syscall(import: &FunctionImport, script: &mut Vec<u8>) -> (r: Result<
    &'static str,
    TranslateError,
>)
    ensures
        neo_call_outcome(encode_utf8(import.name@), old(script)@, final(script)@, r, import.name),
{
    if str_eq_ignore_case(import.name.as_str(), "runtime_check_witness_hash") {
        script.push(CONVERT);
        script.push(STACKITEMTYPE_BYTESTRING);
        let r = emit_check_witness(script);
        proof {
            if r is Ok {
                let h = spec_lookup(CHECK_WITNESS.spec_bytes())->0.hash;
                assert(final(script)@ =~= old(script)@ + seq![CONVERT, STACKITEMTYPE_BYTESTRING]
                    + syscall_bytes(h));
            }
        }
        return r;
    }
    match neo_alias_descriptor(import.name.as_str()) {
        Some(d) => emit_descriptor_syscall(d, script),
        None => Err(TranslateError::UnknownNeoImport { name: import.name.clone() }),
    }
}

/// Emits a SYSCALL of the interop service named `descriptor` and returns its descriptor.
pub fn emit_descriptor_syscall(descriptor: &str, script: &mut Vec<u8>) -> (r: Result<
    &'static str,
    TranslateError,
>)
    ensures
        match spec_lookup(descriptor.spec_bytes()) {
            Some(info) => r == Ok::<&'static str, TranslateError>(info.name) && final(script)@
                == old(script)@ + syscall_bytes(info.hash),
            None => r is Err && final(script)@ == old(script)@,
        },
{
    match lookup(descriptor) {
        Some(info) => {
            emit_syscall_of(script, info);
            Ok(info.name)
        },
        None => Err(TranslateError::UnknownSyscall { name: descriptor.to_string() }),
    }
}

/// The descriptor of the contract-call interop service.
pub const CONTRACT_CALL: &'static str = "System.Contract.Call";

/// The call flags of a read-only contract call.
pub const CALL_FLAGS_READ_ONLY: i128 = 4;

/// Emits a call of `method` on the CryptoLib native contract `contract_hash` through
/// `System.Contract.Call`: the contract hash, the method name and the read-only call flags are
/// pushed above the arguments, then the SYSCALL. Returns the description of the call,
/// `Neo.Crypto.<method> (via <import_name>)`.
pub fn emit_cryptolib_call(
    script: &mut Vec<u8>,
    contract_hash: [u8; 20],
    method: &str,
    import_name: &str,
) -> (r: Result<String, TranslateError>)
    ensures
        spec_lookup(CONTRACT_CALL.spec_bytes()) is None ==> r is Err && final(script)@ == old(
            script,
        )@,
        spec_lookup(CONTRACT_CALL.spec_bytes()) is Some && method.spec_bytes().len() > 0xFFFF_FFFF
            ==> r is Err,
        spec_lookup(CONTRACT_CALL.spec_bytes()) is Some && method.spec_bytes().len() <= 0xFFFF_FFFF
            ==> {
            let info = spec_lookup(CONTRACT_CALL.spec_bytes())->0;
            &&& r matches Ok(d) && d@ == "Neo.Crypto."@ + method@ + " (via "@ + import_name@ + ")"@
            &&& final(script)@ == old(script)@ + push_data_bytes(contract_hash@) + push_data_bytes(
                method.spec_bytes(),
            ) + push_int_bytes(CALL_FLAGS_READ_ONLY as int) + syscall_bytes(info.hash)
        },
{
    let call = match lookup(CONTRACT_CALL) {
        Some(info) => info,
        None => {
            return Err(TranslateError::UnknownSyscall { name: CONTRACT_CALL.to_string() });
        },
    };
    let ghost start = script@;
    emit_push_data(script, contract_hash.as_slice())?;
    let ghost after_hash = script@;
    emit_push_data(script, method.as_bytes())?;
    let ghost after_method = script@;
    let _ = emit_push_int(script, CALL_FLAGS_READ_ONLY);
    emit_syscall_of(script, call);
    proof {
        assert(script@ =~= start + push_data_bytes(contract_hash@) + push_data_bytes(
            method.spec_bytes(),
        ) + push_int_bytes(CALL_FLAGS_READ_ONLY as int) + syscall_bytes(call.hash));
    }
    let mut description = String::from_str("Neo.Crypto.");
    description.append(method);
    description.append(" (via ");
    description.append(import_name);
    description.append(")");
    Ok(description)
}

/// The instructions that turn a script hash into an integer of its first eight bytes.
pub open spec fn hash_to_i64_bytes() -> Seq<u8> {
    seq![PUSH0, PUSH8, SUBSTR, CONVERT, STACKITEMTYPE_INTEGER]
}

/// The NeoVM stack item type of an integer.
pub const STACKITEMTYPE_INTEGER: u8 = 0x21;

/// Whether a `neo` import name is one of the script-hash getters that return an i64.
pub open spec fn is_script_hash_getter(name: Seq<u8>) -> bool {
    ||| eq_ignore_case(name, "runtime_get_calling_script_hash_i64".spec_bytes())
    ||| eq_ignore_case(name, "runtime_get_entry_script_hash_i64".spec_bytes())
    ||| eq_ignore_case(name, "runtime_get_executing_script_hash_i64".spec_bytes())
}

/// Handles the `neo` getters `runtime_get_calling_script_hash_i64`,
/// `runtime_get_entry_script_hash_i64` and `runtime_get_executing_script_hash_i64`: each
/// fetches its script hash and returns its first eight bytes as an integer. Returns `None` for
/// any other import.
pub fn try_handle_runtime_hash_i64_import(
    import: &FunctionImport,
    func_type: &FuncSig,
    script: &mut Vec<u8>,
) -> (r: Result<Option<&'static str>, TranslateError>)
    ensures
        r matches Ok(None) ==> final(script)@ == old(script)@,
        r matches Ok(None) <==> !is_script_hash_getter(encode_utf8(import.name@)),
        r matches Ok(Some(d)) ==> func_type.params@.len() == 0 && func_type.results@
            == seq![ValKind::I64] && exists|h: u32|
            final(script)@ == old(script)@ + syscall_bytes(h) + hash_to_i64_bytes(),
{
    let name = import.name.as_str();
    let descriptor: &'static str = if str_eq_ignore_case(name, "runtime_get_calling_script_hash_i64") {
        "System.Runtime.GetCallingScriptHash"
    } else if str_eq_ignore_case(name, "runtime_get_entry_script_hash_i64") {
        "System.Runtime.GetEntryScriptHash"
    } else if str_eq_ignore_case(name, "runtime_get_executing_script_hash_i64") {
        "System.Runtime.GetExecutingScriptHash"
    } else {
        return Ok(None);
    };
    if func_type.params.len() != 0 {
        return Err(TranslateError::NeoImportSignature { name: import.name.clone() });
    }
    if !(func_type.results.len() == 1 && func_type.results[0] == ValKind::I64) {
        return Err(TranslateError::NeoImportSignature { name: import.name.clone() });
    }
    proof {
        assert(func_type.results@ =~= seq![ValKind::I64]);
    }
    let ghost start = script@;
    let emitted = emit_descriptor_syscall(descriptor, script)?;
    let ghost after_syscall = script@;
    script.push(PUSH0);
    script.push(PUSH8);
    script.push(SUBSTR);
    script.push(CONVERT);
    script.push(STACKITEMTYPE_INTEGER);
    proof {
        let h = spec_lookup(descriptor.spec_bytes())->0.hash;
        assert(final(script)@ =~= start + syscall_bytes(h) + hash_to_i64_bytes());
    }
    Ok(Some(emitted))
}

/// Whether a `neo` import name is one of the helpers that work on linear memory through a
/// runtime helper routine: the storage facade, the raw i64 storage primitives, the storage
/// iterator, the events, and the byte-string witness check.
pub open spec fn is_memory_neo_helper(name: Seq<u8>) -> bool {
    ||| name == "neo_storage_put_bytes".spec_bytes()
    ||| name == "neo_storage_delete_bytes".spec_bytes()
    ||| name == "neo_storage_get_into".spec_bytes()
    ||| name == "raw_storage_put_i64".spec_bytes()
    ||| name == "raw_storage_get_i64".spec_bytes()
    ||| name == "raw_storage_has_i64".spec_bytes()
    ||| name == "raw_storage_delete_i64".spec_bytes()
    ||| name == "runtime_storage_find".spec_bytes()
    ||| name == "runtime_iterator_next".spec_bytes()
    ||| name == "runtime_iterator_value".spec_bytes()
    ||| eq_ignore_case(name, "log".spec_bytes())
    ||| eq_ignore_case(name, "runtime_log".spec_bytes())
    ||| eq_ignore_case(name, "notify".spec_bytes())
    ||| eq_ignore_case(name, "runtime_notify".spec_bytes())
    ||| eq_ignore_case(name, "runtime_notify_with_state".spec_bytes())
    ||| eq_ignore_case(name, "runtime_check_witness_bytes".spec_bytes())
}

/// Whether `name` is one of the `neo` helpers that need a runtime helper routine.
pub fn is_memory_neo_helper_name(name: &str) -> (r: bool)
    ensures
        r == is_memory_neo_helper(name.spec_bytes()),
{
    str_equal(name, "neo_storage_put_bytes") || str_equal(name, "neo_storage_delete_bytes")
        || str_equal(name, "neo_storage_get_into") || str_equal(name, "raw_storage_put_i64")
        || str_equal(name, "raw_storage_get_i64") || str_equal(name, "raw_storage_has_i64")
        || str_equal(name, "raw_storage_delete_i64") || str_equal(name, "runtime_storage_find")
        || str_equal(name, "runtime_iterator_next") || str_equal(name, "runtime_iterator_value")
        || str_eq_ignore_case(name, "log") || str_eq_ignore_case(name, "runtime_log")
        || str_eq_ignore_case(name, "notify") || str_eq_ignore_case(name, "runtime_notify")
        || str_eq_ignore_case(name, "runtime_notify_with_state") || str_eq_ignore_case(
        name,
        "runtime_check_witness_bytes",
    )
}

/// The signature, parameters then results, that a `neo` storage helper import must have.
pub open spec fn storage_helper_signature(name: Seq<u8>) -> Option<(Seq<ValKind>, Seq<ValKind>)> {
    if name == "neo_storage_put_bytes".spec_bytes() {
        Some((seq![ValKind::I32, ValKind::I32, ValKind::I32, ValKind::I32], seq![]))
    } else if name == "neo_storage_delete_bytes".spec_bytes() {
        Some((seq![ValKind::I32, ValKind::I32], seq![]))
    } else if name == "neo_storage_get_into".spec_bytes() {
        Some((seq![ValKind::I32, ValKind::I32, ValKind::I32, ValKind::I32], seq![ValKind::I32]))
    } else if name == "raw_storage_put_i64".spec_bytes() {
        Some((seq![ValKind::I64, ValKind::I64], seq![]))
    } else if name == "raw_storage_get_i64".spec_bytes() {
        Some((seq![ValKind::I64], seq![ValKind::I64]))
    } else if name == "raw_storage_has_i64".spec_bytes() {
        Some((seq![ValKind::I64], seq![ValKind::I32]))
    } else if name == "raw_storage_delete_i64".spec_bytes() {
        Some((seq![ValKind::I64], seq![]))
    } else if name == "runtime_storage_find".spec_bytes() {
        Some((seq![ValKind::I32, ValKind::I32], seq![]))
    } else if name == "runtime_iterator_next".spec_bytes() {
        Some((seq![], seq![ValKind::I32]))
    } else if name == "runtime_iterator_value".spec_bytes() {
        Some((seq![ValKind::I32, ValKind::I32], seq![ValKind::I32]))
    } else {
        None
    }
}

/// Whether the parameters and results are those of the storage helper `name`.
pub open spec fn storage_signature_fits(name: Seq<u8>, params: Seq<ValKind>, results: Seq<ValKind>) -> bool {
    match storage_helper_signature(name) {
        Some((p, q)) => params == p && results == q,
        None => false,
    }
}

/// Whether `v` holds exactly the kinds `expected`.
fn kinds_equal(v: &Vec<ValKind>, expected: Vec<ValKind>) -> (r: bool)
    ensures
        r == (v@ == expected@),
{
    if v.len() != expected.len() {
        return false;
    }
    let mut i: usize = 0;
    while i < v.len()
        invariant
            i <= v@.len(),
            v@.len() == expected@.len(),
            forall|j: int| 0 <= j < i ==> v@[j] == expected@[j],
        decreases v@.len() - i,
    {
        if v[i] != expected[i] {
            return false;
        }
        i = i + 1;
    }
    proof {
        assert(v@ =~= expected@);
    }
    true
}

/// Whether `sig` is the signature of the storage helper `name`; `None` when `name` is no
/// storage helper.
pub fn storage_signature_matches(name: &str, sig: &FuncSig) -> (r: Option<bool>)
    ensures
        r == (match storage_helper_signature(name.spec_bytes()) {
            None => None,
            Some(s) => Some(sig.params@ == s.0 && sig.results@ == s.1),
        }),
{
    let (params, results): (Vec<ValKind>, Vec<ValKind>) = if str_equal(name, "neo_storage_put_bytes") {
        (vec![ValKind::I32, ValKind::I32, ValKind::I32, ValKind::I32], vec![])
    } else if str_equal(name, "neo_storage_delete_bytes") {
        (vec![ValKind::I32, ValKind::I32], vec![])
    } else if str_equal(name, "neo_storage_get_into") {
        (vec![ValKind::I32, ValKind::I32, ValKind::I32, ValKind::I32], vec![ValKind::I32])
    } else if str_equal(name, "raw_storage_put_i64") {
        (vec![ValKind::I64, ValKind::I64], vec![])
    } else if str_equal(name, "raw_storage_get_i64") {
        (vec![ValKind::I64], vec![ValKind::I64])
    } else if str_equal(name, "raw_storage_has_i64") {
        (vec![ValKind::I64], vec![ValKind::I32])
    } else if str_equal(name, "raw_storage_delete_i64") {
        (vec![ValKind::I64], vec![])
    } else if str_equal(name, "runtime_storage_find") {
        (vec![ValKind::I32, ValKind::I32], vec![])
    } else if str_equal(name, "runtime_iterator_next") {
        (vec![], vec![ValKind::I32])
    } else if str_equal(name, "runtime_iterator_value") {
        (vec![ValKind::I32, ValKind::I32], vec![ValKind::I32])
    } else {
        return None;
    };
    let ghost expected = storage_helper_signature(name.spec_bytes())->0;
    proof {
        assert(params@ =~= expected.0);
        assert(results@ =~= expected.1);
    }
    let p = kinds_equal(&sig.params, params);
    let q = kinds_equal(&sig.results, results);
    Some(p && q)
}

/// Handles the `neo` helpers that take a different path than [`emit_neo_syscall`]: the
/// script-hash getters (see [`try_handle_runtime_hash_i64_import`]), and
/// `runtime_check_witness_i64`, which pads its 64-bit account to a 20-byte hash before checking
/// the witness. The helpers that work on linear memory need a runtime helper routine. Returns
/// `None` for any other import.
pub fn try_handle_neo_import(
    import: &FunctionImport,
    func_type: &FuncSig,
    script: &mut Vec<u8>,
) -> (r: Result<Option<&'static str>, TranslateError>)
    ensures
        r matches Ok(None) ==> final(script)@ == old(script)@,
        !eq_ignore_case(encode_utf8(import.module@), "neo".spec_bytes()) ==> r == Ok::<
            Option<&'static str>,
            TranslateError,
        >(None),
        eq_ignore_case(encode_utf8(import.module@), "neo".spec_bytes()) && storage_helper_signature(
            encode_utf8(import.name@),
        ) is Some ==> r == Err::<Option<&'static str>, TranslateError>(
            if storage_signature_fits(encode_utf8(import.name@), func_type.params@, func_type.results@) {
                TranslateError::RuntimeHelperRequired { name: import.name }
            } else {
                TranslateError::NeoImportSignature { name: import.name }
            },
        ),
        eq_ignore_case(encode_utf8(import.module@), "neo".spec_bytes()) && is_memory_neo_helper(
            encode_utf8(import.name@),
        ) && storage_helper_signature(encode_utf8(import.name@)) is None ==> r == Err::<
            Option<&'static str>,
            TranslateError,
        >(TranslateError::RuntimeHelperRequired { name: import.name }),
        eq_ignore_case(encode_utf8(import.module@), "neo".spec_bytes()) && eq_ignore_case(
            encode_utf8(import.name@),
            "runtime_check_witness_i64".spec_bytes(),
        ) && !is_memory_neo_helper(encode_utf8(import.name@)) && !is_script_hash_getter(
            encode_utf8(import.name@),
        ) && func_type.params@ == seq![ValKind::I64] && func_type.results@ == seq![ValKind::I32]
            && spec_lookup(CHECK_WITNESS.spec_bytes()) is Some ==> r is Ok && final(script)@
            == old(script)@ + seq![CONVERT, STACKITEMTYPE_BYTESTRING] + push_data_bytes(
            Seq::new(19, |i: int| 0u8),
        ) + seq![CAT] + syscall_bytes(spec_lookup(CHECK_WITNESS.spec_bytes())->0.hash),
{
    if !str_eq_ignore_case(import.module.as_str(), "neo") {
        return Ok(None);
    }
    let name = import.name.as_str();
    match storage_signature_matches(name, func_type) {
        Some(true) => {
            return Err(TranslateError::RuntimeHelperRequired { name: import.name.clone() });
        },
        Some(false) => {
            return Err(TranslateError::NeoImportSignature { name: import.name.clone() });
        },
        None => {},
    }
    if is_memory_neo_helper_name(name) {
        return Err(TranslateError::RuntimeHelperRequired { name: import.name.clone() });
    }
    if let Some(descriptor) = try_handle_runtime_hash_i64_import(import, func_type, script)? {
        return Ok(Some(descriptor));
    }
    if !str_eq_ignore_case(name, "runtime_check_witness_i64") {
        return Ok(None);
    }
    if !(func_type.params.len() == 1 && func_type.params[0] == ValKind::I64) {
        return Err(TranslateError::NeoImportSignature { name: import.name.clone() });
    }
    if !(func_type.results.len() == 1 && func_type.results[0] == ValKind::I32) {
        return Err(TranslateError::NeoImportSignature { name: import.name.clone() });
    }
    let ghost start = script@;
    script.push(CONVERT);
    script.push(STACKITEMTYPE_BYTESTRING);
    let zeros: Vec<u8> = vec![0u8; 19];
    emit_push_data(script, zeros.as_slice())?;
    script.push(CAT);
    let ghost before_syscall = script@;
    let descriptor = emit_check_witness(script)?;
    proof {
        assert(zeros@ =~= Seq::new(19, |i: int| 0u8));
        assert(before_syscall =~= start + seq![CONVERT, STACKITEMTYPE_BYTESTRING] + push_data_bytes(
            Seq::new(19, |i: int| 0u8),
        ) + seq![CAT]);
    }
    Ok(Some(descriptor))
}

/// Emits a call of the imported function `function_index` and records the services it uses.
#[verifier::spinoff_prover]
#[verifier::rlimit(30)]
pub fn handle_import_call(
    function_index: u32,
    script: &mut Vec<u8>,
    imports: &Vec<FunctionImport>,
    types: &Vec<FuncSig>,
    params: &Vec<StackValue>,
    features: &mut FeatureTracker,
) -> (r: Result<(), TranslateError>)
    ensures
        function_index >= imports@.len() ==> r == Err::<(), TranslateError>(
            TranslateError::CallToUnknownImport { index: function_index },
        ),
        function_index < imports@.len() && imports@[function_index as int].type_index
            >= types@.len() ==> r is Err,
        final(features).payable == old(features).payable,
        old(features).storage ==> final(features).storage,
        r is Ok ==> forall|n: int|
            0 <= n <= old(script)@.len() && values_after(params@, n) ==> #[trigger] keeps_prefix(
                old(script)@,
                final(script)@,
                n,
            ),
        function_index < imports@.len() && imports@[function_index as int].type_index
            < types@.len() ==> ({
            let import = imports@[function_index as int];
            let module = encode_utf8(import.module@);
            let name = encode_utf8(import.name@);
            &&& !eq_ignore_case(module, "opcode".spec_bytes()) && !eq_ignore_case(
                module,
                "syscall".spec_bytes(),
            ) && !eq_ignore_case(module, "neo".spec_bytes()) ==> r == Err::<(), TranslateError>(
                TranslateError::UnsupportedImportModule { module: import.module, name: import.name },
            )
            &&& !eq_ignore_case(module, "opcode".spec_bytes()) && eq_ignore_case(
                module,
                "syscall".spec_bytes(),
            ) ==> match spec_lookup(name) {
                Some(info) => r is Ok && final(script)@ == old(script)@ + syscall_bytes(info.hash)
                    && final(features).storage == (old(features).storage || is_storage_descriptor(
                    info.name.spec_bytes(),
                )),
                None => r is Err,
            }
            &&& !eq_ignore_case(module, "opcode".spec_bytes()) && !eq_ignore_case(
                module,
                "syscall".spec_bytes(),
            ) && eq_ignore_case(module, "neo".spec_bytes()) ==> match neo_call_service(name) {
                Some(info) => r is Ok && final(script)@ == old(script)@ + neo_call_prefix(name)
                    + syscall_bytes(info.hash) && final(features).storage == (old(
                    features,
                ).storage || is_storage_descriptor(info.name.spec_bytes())),
                None => r is Err,
            }
        }),
{
    if function_index as usize >= imports.len() {
        return Err(TranslateError::CallToUnknownImport { index: function_index });
    }
    let import = &imports[function_index as usize];
    let type_index = get_import_type_index(import);
    if type_index as usize >= types.len() {
        return Err(TranslateError::InvalidTypeIndex { index: type_index });
    }
    let func_type = &types[type_index as usize];
    let module = import.module.as_str();
    if str_eq_ignore_case(module, "opcode") {
        emit_opcode_call(import, func_type, params, script)
    } else if str_eq_ignore_case(module, "syscall") {
        let descriptor = emit_syscall_call(import, script)?;
        features.register_syscall(descriptor);
        proof {
            assert(script@.subrange(0, old(script)@.len() as int) =~= old(script)@);
            lemma_appended_keeps_prefixes(old(script)@, script@);
        }
        Ok(())
    } else if str_eq_ignore_case(module, "neo") {
        let descriptor = emit_neo_syscall(import, script)?;
        features.register_syscall(descriptor);
        proof {
            assert(script@.subrange(0, old(script)@.len() as int) =~= old(script)@);
            lemma_appended_keeps_prefixes(old(script)@, script@);
        }
        Ok(())
    } else {
        Err(
            TranslateError::UnsupportedImportModule {
                module: import.module.clone(),
                name: import.name.clone(),
            },
        )
    }
}

/// A script that only grew keeps every prefix of the one it grew from.
proof fn lemma_appended_keeps_prefixes(before: Seq<u8>, after: Seq<u8>)
    requires
        before.len() <= after.len(),
        after.subrange(0, before.len() as int) == before,
    ensures
        forall|n: int| 0 <= n <= before.len() ==> #[trigger] keeps_prefix(before, after, n),
{
    assert forall|n: int| 0 <= n <= before.len() implies #[trigger] keeps_prefix(before, after, n) by {
        assert(after.subrange(0, n) =~= after.subrange(0, before.len() as int).subrange(0, n));
        assert(before.subrange(0, n) =~= before.subrange(0, n));
    }
}

/// Whether a `neo` import name is one of the witness checks.
pub open spec fn is_witness_check(name: Seq<u8>) -> bool {
    ||| eq_ignore_case(name, "runtime_check_witness_hash".spec_bytes())
    ||| eq_ignore_case(name, "runtime_check_witness_i64".spec_bytes())
    ||| eq_ignore_case(name, "runtime_check_witness_bytes".spec_bytes())
}

/// The service an import used as a start function or export stands for: `Ok(Some(..))` for a
/// known `syscall` service, a `neo` witness check or DevPack alias, `Ok(None)` for an import of any other
/// module, and `Err` for an unknown `syscall` or `neo` name.
pub open spec fn registered_service(import: FunctionImport) -> Result<Option<Seq<u8>>, ()> {
    let module = encode_utf8(import.module@);
    let name = encode_utf8(import.name@);
    if eq_ignore_case(module, "syscall".spec_bytes()) {
        match spec_lookup(name) {
            Some(info) => Ok(Some(info.name.spec_bytes())),
            None => Err(()),
        }
    } else if eq_ignore_case(module, "neo".spec_bytes()) {
        if is_witness_check(name) {
            Ok(Some(CHECK_WITNESS.spec_bytes()))
        } else {
            match neo_alias(name) {
                Some(d) => Ok(Some(d)),
                None => Err(()),
            }
        }
    } else {
        Ok(None)
    }
}

/// Records the services that an import used as a start function or export stands for.
pub fn register_import_features(import: &FunctionImport, features: &mut FeatureTracker) -> (r:
    Result<(), TranslateError>)
    ensures
        final(features).payable == old(features).payable,
        r is Ok <==> registered_service(*import) is Ok,
        r is Err ==> *final(features) == *old(features),
        r is Ok ==> final(features).storage == (old(features).storage || (registered_service(
            *import,
        )->Ok_0 matches Some(d) && is_storage_descriptor(d))),
{
    let module = import.module.as_str();
    if str_eq_ignore_case(module, "syscall") {
        match lookup(import.name.as_str()) {
            Some(info) => {
                features.register_syscall(info.name);
                Ok(())
            },
            None => Err(TranslateError::UnknownSyscall { name: import.name.clone() }),
        }
    } else if str_eq_ignore_case(module, "neo") {
        let name = import.name.as_str();
        if str_eq_ignore_case(name, "runtime_check_witness_hash") || str_eq_ignore_case(
            name,
            "runtime_check_witness_i64",
        ) || str_eq_ignore_case(name, "runtime_check_witness_bytes") {
            features.register_syscall(CHECK_WITNESS);
            Ok(())
        } else {
            match neo_alias_descriptor(name) {
                Some(d) => {
                    features.register_syscall(d);
                    Ok(())
                },
                None => Err(TranslateError::UnknownNeoImport { name: import.name.clone() }),
            }
        }
    } else {
        Ok(())
    }
}

} // verus!
