//! The NeoVM instruction set: opcode bytes, names and operand layouts.

use vstd::prelude::*;
use vstd::string::StringSliceAdditionalSpecFns;

use crate::text::bytes_equal;

verus! {

pub const PUSHINT8: u8 = 0x00;
pub const PUSHINT16: u8 = 0x01;
pub const PUSHINT32: u8 = 0x02;
pub const PUSHINT64: u8 = 0x03;
pub const PUSHINT128: u8 = 0x04;
pub const PUSHINT256: u8 = 0x05;
pub const PUSHT: u8 = 0x08;
pub const PUSHF: u8 = 0x09;
pub const PUSHA: u8 = 0x0A;
pub const PUSHNULL: u8 = 0x0B;
pub const PUSHDATA1: u8 = 0x0C;
pub const PUSHDATA2: u8 = 0x0D;
pub const PUSHDATA4: u8 = 0x0E;
pub const PUSHM1: u8 = 0x0F;
pub const PUSH0: u8 = 0x10;
pub const PUSH1: u8 = 0x11;
pub const PUSH2: u8 = 0x12;
pub const PUSH3: u8 = 0x13;
pub const PUSH4: u8 = 0x14;
pub const PUSH5: u8 = 0x15;
pub const PUSH6: u8 = 0x16;
pub const PUSH7: u8 = 0x17;
pub const PUSH8: u8 = 0x18;
pub const PUSH9: u8 = 0x19;
pub const PUSH10: u8 = 0x1A;
pub const PUSH11: u8 = 0x1B;
pub const PUSH12: u8 = 0x1C;
pub const PUSH13: u8 = 0x1D;
pub const PUSH14: u8 = 0x1E;
pub const PUSH15: u8 = 0x1F;
pub const PUSH16: u8 = 0x20;
pub const NOP: u8 = 0x21;
pub const JMP: u8 = 0x22;
pub const JMP_L: u8 = 0x23;
pub const JMPIF: u8 = 0x24;
pub const JMPIF_L: u8 = 0x25;
pub const JMPIFNOT: u8 = 0x26;
pub const JMPIFNOT_L: u8 = 0x27;
pub const JMPEQ: u8 = 0x28;
pub const JMPEQ_L: u8 = 0x29;
pub const JMPNE: u8 = 0x2A;
pub const JMPNE_L: u8 = 0x2B;
pub const JMPGT: u8 = 0x2C;
pub const JMPGT_L: u8 = 0x2D;
pub const JMPGE: u8 = 0x2E;
pub const JMPGE_L: u8 = 0x2F;
pub const JMPLT: u8 = 0x30;
pub const JMPLT_L: u8 = 0x31;
pub const JMPLE: u8 = 0x32;
pub const JMPLE_L: u8 = 0x33;
pub const CALL: u8 = 0x34;
pub const CALL_L: u8 = 0x35;
pub const CALLA: u8 = 0x36;
pub const CALLT: u8 = 0x37;
pub const ABORT: u8 = 0x38;
pub const ASSERT: u8 = 0x39;
pub const THROW: u8 = 0x3A;
pub const TRY: u8 = 0x3B;
pub const TRY_L: u8 = 0x3C;
pub const ENDTRY: u8 = 0x3D;
pub const ENDTRY_L: u8 = 0x3E;
pub const ENDFINALLY: u8 = 0x3F;
pub const RET: u8 = 0x40;
pub const SYSCALL: u8 = 0x41;
pub const DEPTH: u8 = 0x43;
pub const DROP: u8 = 0x45;
pub const NIP: u8 = 0x46;
pub const XDROP: u8 = 0x48;
pub const CLEAR: u8 = 0x49;
pub const DUP: u8 = 0x4A;
pub const OVER: u8 = 0x4B;
pub const PICK: u8 = 0x4D;
pub const TUCK: u8 = 0x4E;
pub const SWAP: u8 = 0x50;
pub const ROT: u8 = 0x51;
pub const ROLL: u8 = 0x52;
pub const REVERSE3: u8 = 0x53;
pub const REVERSE4: u8 = 0x54;
pub const REVERSEN: u8 = 0x55;
pub const INITSSLOT: u8 = 0x56;
pub const INITSLOT: u8 = 0x57;
pub const LDSFLD0: u8 = 0x58;
pub const LDSFLD1: u8 = 0x59;
pub const LDSFLD2: u8 = 0x5A;
pub const LDSFLD3: u8 = 0x5B;
pub const LDSFLD4: u8 = 0x5C;
pub const LDSFLD5: u8 = 0x5D;
pub const LDSFLD6: u8 = 0x5E;
pub const LDSFLD: u8 = 0x5F;
pub const STSFLD0: u8 = 0x60;
pub const STSFLD1: u8 = 0x61;
pub const STSFLD2: u8 = 0x62;
pub const STSFLD3: u8 = 0x63;
pub const STSFLD4: u8 = 0x64;
pub const STSFLD5: u8 = 0x65;
pub const STSFLD6: u8 = 0x66;
pub const STSFLD: u8 = 0x67;
pub const LDLOC0: u8 = 0x68;
pub const LDLOC1: u8 = 0x69;
pub const LDLOC2: u8 = 0x6A;
pub const LDLOC3: u8 = 0x6B;
pub const LDLOC4: u8 = 0x6C;
pub const LDLOC5: u8 = 0x6D;
pub const LDLOC6: u8 = 0x6E;
pub const LDLOC: u8 = 0x6F;
pub const STLOC0: u8 = 0x70;
pub const STLOC1: u8 = 0x71;
pub const STLOC2: u8 = 0x72;
pub const STLOC3: u8 = 0x73;
pub const STLOC4: u8 = 0x74;
pub const STLOC5: u8 = 0x75;
pub const STLOC6: u8 = 0x76;
pub const STLOC: u8 = 0x77;
pub const LDARG0: u8 = 0x78;
pub const LDARG1: u8 = 0x79;
pub const LDARG2: u8 = 0x7A;
pub const LDARG3: u8 = 0x7B;
pub const LDARG4: u8 = 0x7C;
pub const LDARG5: u8 = 0x7D;
pub const LDARG6: u8 = 0x7E;
pub const LDARG: u8 = 0x7F;
pub const STARG0: u8 = 0x80;
pub const STARG1: u8 = 0x81;
pub const STARG2: u8 = 0x82;
pub const STARG3: u8 = 0x83;
pub const STARG4: u8 = 0x84;
pub const STARG5: u8 = 0x85;
pub const STARG6: u8 = 0x86;
pub const STARG: u8 = 0x87;
pub const NEWBUFFER: u8 = 0x88;
pub const MEMCPY: u8 = 0x89;
pub const CAT: u8 = 0x8B;
pub const SUBSTR: u8 = 0x8C;
pub const LEFT: u8 = 0x8D;
pub const RIGHT: u8 = 0x8E;
pub const INVERT: u8 = 0x90;
pub const AND: u8 = 0x91;
pub const OR: u8 = 0x92;
pub const XOR: u8 = 0x93;
pub const EQUAL: u8 = 0x97;
pub const NOTEQUAL: u8 = 0x98;
pub const SIGN: u8 = 0x99;
pub const ABS: u8 = 0x9A;
pub const NEGATE: u8 = 0x9B;
pub const INC: u8 = 0x9C;
pub const DEC: u8 = 0x9D;
pub const ADD: u8 = 0x9E;
pub const SUB: u8 = 0x9F;
pub const MUL: u8 = 0xA0;
pub const DIV: u8 = 0xA1;
pub const MOD: u8 = 0xA2;
pub const POW: u8 = 0xA3;
pub const SQRT: u8 = 0xA4;
pub const MODMUL: u8 = 0xA5;
pub const MODPOW: u8 = 0xA6;
pub const SHL: u8 = 0xA8;
pub const SHR: u8 = 0xA9;
pub const NOT: u8 = 0xAA;
pub const BOOLAND: u8 = 0xAB;
pub const BOOLOR: u8 = 0xAC;
pub const NZ: u8 = 0xB1;
pub const NUMEQUAL: u8 = 0xB3;
pub const NUMNOTEQUAL: u8 = 0xB4;
pub const LT: u8 = 0xB5;
pub const LE: u8 = 0xB6;
pub const GT: u8 = 0xB7;
pub const GE: u8 = 0xB8;
pub const MIN: u8 = 0xB9;
pub const MAX: u8 = 0xBA;
pub const WITHIN: u8 = 0xBB;
pub const PACKMAP: u8 = 0xBE;
pub const PACKSTRUCT: u8 = 0xBF;
pub const PACK: u8 = 0xC0;
pub const UNPACK: u8 = 0xC1;
pub const NEWARRAY0: u8 = 0xC2;
pub const NEWARRAY: u8 = 0xC3;
pub const NEWARRAY_T: u8 = 0xC4;
pub const NEWSTRUCT0: u8 = 0xC5;
pub const NEWSTRUCT: u8 = 0xC6;
pub const NEWMAP: u8 = 0xC8;
pub const SIZE: u8 = 0xCA;
pub const HASKEY: u8 = 0xCB;
pub const KEYS: u8 = 0xCC;
pub const VALUES: u8 = 0xCD;
pub const PICKITEM: u8 = 0xCE;
pub const APPEND: u8 = 0xCF;
pub const SETITEM: u8 = 0xD0;
pub const REVERSEITEMS: u8 = 0xD1;
pub const REMOVE: u8 = 0xD2;
pub const CLEARITEMS: u8 = 0xD3;
pub const POPITEM: u8 = 0xD4;
pub const ISNULL: u8 = 0xD8;
pub const ISTYPE: u8 = 0xD9;
pub const CONVERT: u8 = 0xDB;
pub const ABORTMSG: u8 = 0xE0;
pub const ASSERTMSG: u8 = 0xE1;

/// The immediate-operand layout of one NeoVM opcode.
#[derive(Clone, Copy, PartialEq, Eq, Debug)]
pub struct OpcodeInfo {
    pub byte: u8,
    /// Number of fixed immediate bytes that follow the opcode.
    pub operand_size: u8,
    /// Number of length-prefix bytes for variable-size operands (PUSHDATA*).
    pub operand_size_prefix: u8,
}

/// The mnemonic of a defined opcode byte.
pub open spec fn spec_opcode_name(byte: u8) -> Option<&'static str> {
    match byte {
        0x00u8 => Some("PUSHINT8"),
        0x01u8 => Some("PUSHINT16"),
        0x02u8 => Some("PUSHINT32"),
        0x03u8 => Some("PUSHINT64"),
        0x04u8 => Some("PUSHINT128"),
        0x05u8 => Some("PUSHINT256"),
        0x08u8 => Some("PUSHT"),
        0x09u8 => Some("PUSHF"),
        0x0Au8 => Some("PUSHA"),
        0x0Bu8 => Some("PUSHNULL"),
        0x0Cu8 => Some("PUSHDATA1"),
        0x0Du8 => Some("PUSHDATA2"),
        0x0Eu8 => Some("PUSHDATA4"),
        0x0Fu8 => Some("PUSHM1"),
        0x10u8 => Some("PUSH0"),
        0x11u8 => Some("PUSH1"),
        0x12u8 => Some("PUSH2"),
        0x13u8 => Some("PUSH3"),
        0x14u8 => Some("PUSH4"),
        0x15u8 => Some("PUSH5"),
        0x16u8 => Some("PUSH6"),
        0x17u8 => Some("PUSH7"),
        0x18u8 => Some("PUSH8"),
        0x19u8 => Some("PUSH9"),
        0x1Au8 => Some("PUSH10"),
        0x1Bu8 => Some("PUSH11"),
        0x1Cu8 => Some("PUSH12"),
        0x1Du8 => Some("PUSH13"),
        0x1Eu8 => Some("PUSH14"),
        0x1Fu8 => Some("PUSH15"),
        0x20u8 => Some("PUSH16"),
        0x21u8 => Some("NOP"),
        0x22u8 => Some("JMP"),
        0x23u8 => Some("JMP_L"),
        0x24u8 => Some("JMPIF"),
        0x25u8 => Some("JMPIF_L"),
        0x26u8 => Some("JMPIFNOT"),
        0x27u8 => Some("JMPIFNOT_L"),
        0x28u8 => Some("JMPEQ"),
        0x29u8 => Some("JMPEQ_L"),
        0x2Au8 => Some("JMPNE"),
        0x2Bu8 => Some("JMPNE_L"),
        0x2Cu8 => Some("JMPGT"),
        0x2Du8 => Some("JMPGT_L"),
        0x2Eu8 => Some("JMPGE"),
        0x2Fu8 => Some("JMPGE_L"),
        0x30u8 => Some("JMPLT"),
        0x31u8 => Some("JMPLT_L"),
        0x32u8 => Some("JMPLE"),
        0x33u8 => Some("JMPLE_L"),
        0x34u8 => Some("CALL"),
        0x35u8 => Some("CALL_L"),
        0x36u8 => Some("CALLA"),
        0x37u8 => Some("CALLT"),
        0x38u8 => Some("ABORT"),
        0x39u8 => Some("ASSERT"),
        0x3Au8 => Some("THROW"),
        0x3Bu8 => Some("TRY"),
        0x3Cu8 => Some("TRY_L"),
        0x3Du8 => Some("ENDTRY"),
        0x3Eu8 => Some("ENDTRY_L"),
        0x3Fu8 => Some("ENDFINALLY"),
        0x40u8 => Some("RET"),
        0x41u8 => Some("SYSCALL"),
        0x43u8 => Some("DEPTH"),
        0x45u8 => Some("DROP"),
        0x46u8 => Some("NIP"),
        0x48u8 => Some("XDROP"),
        0x49u8 => Some("CLEAR"),
        0x4Au8 => Some("DUP"),
        0x4Bu8 => Some("OVER"),
        0x4Du8 => Some("PICK"),
        0x4Eu8 => Some("TUCK"),
        0x50u8 => Some("SWAP"),
        0x51u8 => Some("ROT"),
        0x52u8 => Some("ROLL"),
        0x53u8 => Some("REVERSE3"),
        0x54u8 => Some("REVERSE4"),
        0x55u8 => Some("REVERSEN"),
        0x56u8 => Some("INITSSLOT"),
        0x57u8 => Some("INITSLOT"),
        0x58u8 => Some("LDSFLD0"),
        0x59u8 => Some("LDSFLD1"),
        0x5Au8 => Some("LDSFLD2"),
        0x5Bu8 => Some("LDSFLD3"),
        0x5Cu8 => Some("LDSFLD4"),
        0x5Du8 => Some("LDSFLD5"),
        0x5Eu8 => Some("LDSFLD6"),
        0x5Fu8 => Some("LDSFLD"),
        0x60u8 => Some("STSFLD0"),
        0x61u8 => Some("STSFLD1"),
        0x62u8 => Some("STSFLD2"),
        0x63u8 => Some("STSFLD3"),
        0x64u8 => Some("STSFLD4"),
        0x65u8 => Some("STSFLD5"),
        0x66u8 => Some("STSFLD6"),
        0x67u8 => Some("STSFLD"),
        0x68u8 => Some("LDLOC0"),
        0x69u8 => Some("LDLOC1"),
        0x6Au8 => Some("LDLOC2"),
        0x6Bu8 => Some("LDLOC3"),
        0x6Cu8 => Some("LDLOC4"),
        0x6Du8 => Some("LDLOC5"),
        0x6Eu8 => Some("LDLOC6"),
        0x6Fu8 => Some("LDLOC"),
        0x70u8 => Some("STLOC0"),
        0x71u8 => Some("STLOC1"),
        0x72u8 => Some("STLOC2"),
        0x73u8 => Some("STLOC3"),
        0x74u8 => Some("STLOC4"),
        0x75u8 => Some("STLOC5"),
        0x76u8 => Some("STLOC6"),
        0x77u8 => Some("STLOC"),
        0x78u8 => Some("LDARG0"),
        0x79u8 => Some("LDARG1"),
        0x7Au8 => Some("LDARG2"),
        0x7Bu8 => Some("LDARG3"),
        0x7Cu8 => Some("LDARG4"),
        0x7Du8 => Some("LDARG5"),
        0x7Eu8 => Some("LDARG6"),
        0x7Fu8 => Some("LDARG"),
        0x80u8 => Some("STARG0"),
        0x81u8 => Some("STARG1"),
        0x82u8 => Some("STARG2"),
        0x83u8 => Some("STARG3"),
        0x84u8 => Some("STARG4"),
        0x85u8 => Some("STARG5"),
        0x86u8 => Some("STARG6"),
        0x87u8 => Some("STARG"),
        0x88u8 => Some("NEWBUFFER"),
        0x89u8 => Some("MEMCPY"),
        0x8Bu8 => Some("CAT"),
        0x8Cu8 => Some("SUBSTR"),
        0x8Du8 => Some("LEFT"),
        0x8Eu8 => Some("RIGHT"),
        0x90u8 => Some("INVERT"),
        0x91u8 => Some("AND"),
        0x92u8 => Some("OR"),
        0x93u8 => Some("XOR"),
        0x97u8 => Some("EQUAL"),
        0x98u8 => Some("NOTEQUAL"),
        0x99u8 => Some("SIGN"),
        0x9Au8 => Some("ABS"),
        0x9Bu8 => Some("NEGATE"),
        0x9Cu8 => Some("INC"),
        0x9Du8 => Some("DEC"),
        0x9Eu8 => Some("ADD"),
        0x9Fu8 => Some("SUB"),
        0xA0u8 => Some("MUL"),
        0xA1u8 => Some("DIV"),
        0xA2u8 => Some("MOD"),
        0xA3u8 => Some("POW"),
        0xA4u8 => Some("SQRT"),
        0xA5u8 => Some("MODMUL"),
        0xA6u8 => Some("MODPOW"),
        0xA8u8 => Some("SHL"),
        0xA9u8 => Some("SHR"),
        0xAAu8 => Some("NOT"),
        0xABu8 => Some("BOOLAND"),
        0xACu8 => Some("BOOLOR"),
        0xB1u8 => Some("NZ"),
        0xB3u8 => Some("NUMEQUAL"),
        0xB4u8 => Some("NUMNOTEQUAL"),
        0xB5u8 => Some("LT"),
        0xB6u8 => Some("LE"),
        0xB7u8 => Some("GT"),
        0xB8u8 => Some("GE"),
        0xB9u8 => Some("MIN"),
        0xBAu8 => Some("MAX"),
        0xBBu8 => Some("WITHIN"),
        0xBEu8 => Some("PACKMAP"),
        0xBFu8 => Some("PACKSTRUCT"),
        0xC0u8 => Some("PACK"),
        0xC1u8 => Some("UNPACK"),
        0xC2u8 => Some("NEWARRAY0"),
        0xC3u8 => Some("NEWARRAY"),
        0xC4u8 => Some("NEWARRAY_T"),
        0xC5u8 => Some("NEWSTRUCT0"),
        0xC6u8 => Some("NEWSTRUCT"),
        0xC8u8 => Some("NEWMAP"),
        0xCAu8 => Some("SIZE"),
        0xCBu8 => Some("HASKEY"),
        0xCCu8 => Some("KEYS"),
        0xCDu8 => Some("VALUES"),
        0xCEu8 => Some("PICKITEM"),
        0xCFu8 => Some("APPEND"),
        0xD0u8 => Some("SETITEM"),
        0xD1u8 => Some("REVERSEITEMS"),
        0xD2u8 => Some("REMOVE"),
        0xD3u8 => Some("CLEARITEMS"),
        0xD4u8 => Some("POPITEM"),
        0xD8u8 => Some("ISNULL"),
        0xD9u8 => Some("ISTYPE"),
        0xDBu8 => Some("CONVERT"),
        0xE0u8 => Some("ABORTMSG"),
        0xE1u8 => Some("ASSERTMSG"),
        _ => None,
    }
}

/// Number of fixed immediate bytes of an opcode (0 for undefined bytes).
pub open spec fn spec_operand_size(byte: u8) -> u8 {
    match byte {
        0x00u8 => 1u8,
        0x01u8 => 2u8,
        0x02u8 => 4u8,
        0x03u8 => 8u8,
        0x04u8 => 16u8,
        0x05u8 => 32u8,
        0x0Au8 => 4u8,
        0x22u8 => 1u8,
        0x23u8 => 4u8,
        0x24u8 => 1u8,
        0x25u8 => 4u8,
        0x26u8 => 1u8,
        0x27u8 => 4u8,
        0x28u8 => 1u8,
        0x29u8 => 4u8,
        0x2Au8 => 1u8,
        0x2Bu8 => 4u8,
        0x2Cu8 => 1u8,
        0x2Du8 => 4u8,
        0x2Eu8 => 1u8,
        0x2Fu8 => 4u8,
        0x30u8 => 1u8,
        0x31u8 => 4u8,
        0x32u8 => 1u8,
        0x33u8 => 4u8,
        0x34u8 => 1u8,
        0x35u8 => 4u8,
        0x37u8 => 2u8,
        0x3Bu8 => 2u8,
        0x3Cu8 => 8u8,
        0x3Du8 => 1u8,
        0x3Eu8 => 4u8,
        0x41u8 => 4u8,
        0x56u8 => 1u8,
        0x57u8 => 2u8,
        0x5Fu8 => 1u8,
        0x67u8 => 1u8,
        0x6Fu8 => 1u8,
        0x77u8 => 1u8,
        0x7Fu8 => 1u8,
        0x87u8 => 1u8,
        0xC4u8 => 1u8,
        0xD9u8 => 1u8,
        0xDBu8 => 1u8,
        _ => 0u8,
    }
}

/// Number of length-prefix bytes of an opcode's variable-size operand.
pub open spec fn spec_operand_prefix(byte: u8) -> u8 {
    match byte {
        0x0Cu8 => 1u8,
        0x0Du8 => 2u8,
        0x0Eu8 => 4u8,
        _ => 0u8,
    }
}

pub open spec fn spec_opcode_info(byte: u8) -> Option<OpcodeInfo> {
    match spec_opcode_name(byte) {
        Some(_) => Some(OpcodeInfo {
            byte,
            operand_size: spec_operand_size(byte),
            operand_size_prefix: spec_operand_prefix(byte),
        }),
        None => None,
    }
}

/// Returns the mnemonic of an opcode byte, or `None` when the byte is not an opcode.
pub fn opcode_name(byte: u8) -> (r: Option<&'static str>)
    ensures
        r == spec_opcode_name(byte),
{
    match byte {
        0x00u8 => Some("PUSHINT8"),
        0x01u8 => Some("PUSHINT16"),
        0x02u8 => Some("PUSHINT32"),
        0x03u8 => Some("PUSHINT64"),
        0x04u8 => Some("PUSHINT128"),
        0x05u8 => Some("PUSHINT256"),
        0x08u8 => Some("PUSHT"),
        0x09u8 => Some("PUSHF"),
        0x0Au8 => Some("PUSHA"),
        0x0Bu8 => Some("PUSHNULL"),
        0x0Cu8 => Some("PUSHDATA1"),
        0x0Du8 => Some("PUSHDATA2"),
        0x0Eu8 => Some("PUSHDATA4"),
        0x0Fu8 => Some("PUSHM1"),
        0x10u8 => Some("PUSH0"),
        0x11u8 => Some("PUSH1"),
        0x12u8 => Some("PUSH2"),
        0x13u8 => Some("PUSH3"),
        0x14u8 => Some("PUSH4"),
        0x15u8 => Some("PUSH5"),
        0x16u8 => Some("PUSH6"),
        0x17u8 => Some("PUSH7"),
        0x18u8 => Some("PUSH8"),
        0x19u8 => Some("PUSH9"),
        0x1Au8 => Some("PUSH10"),
        0x1Bu8 => Some("PUSH11"),
        0x1Cu8 => Some("PUSH12"),
        0x1Du8 => Some("PUSH13"),
        0x1Eu8 => Some("PUSH14"),
        0x1Fu8 => Some("PUSH15"),
        0x20u8 => Some("PUSH16"),
        0x21u8 => Some("NOP"),
        0x22u8 => Some("JMP"),
        0x23u8 => Some("JMP_L"),
        0x24u8 => Some("JMPIF"),
        0x25u8 => Some("JMPIF_L"),
        0x26u8 => Some("JMPIFNOT"),
        0x27u8 => Some("JMPIFNOT_L"),
        0x28u8 => Some("JMPEQ"),
        0x29u8 => Some("JMPEQ_L"),
        0x2Au8 => Some("JMPNE"),
        0x2Bu8 => Some("JMPNE_L"),
        0x2Cu8 => Some("JMPGT"),
        0x2Du8 => Some("JMPGT_L"),
        0x2Eu8 => Some("JMPGE"),
        0x2Fu8 => Some("JMPGE_L"),
        0x30u8 => Some("JMPLT"),
        0x31u8 => Some("JMPLT_L"),
        0x32u8 => Some("JMPLE"),
        0x33u8 => Some("JMPLE_L"),
        0x34u8 => Some("CALL"),
        0x35u8 => Some("CALL_L"),
        0x36u8 => Some("CALLA"),
        0x37u8 => Some("CALLT"),
        0x38u8 => Some("ABORT"),
        0x39u8 => Some("ASSERT"),
        0x3Au8 => Some("THROW"),
        0x3Bu8 => Some("TRY"),
        0x3Cu8 => Some("TRY_L"),
        0x3Du8 => Some("ENDTRY"),
        0x3Eu8 => Some("ENDTRY_L"),
        0x3Fu8 => Some("ENDFINALLY"),
        0x40u8 => Some("RET"),
        0x41u8 => Some("SYSCALL"),
        0x43u8 => Some("DEPTH"),
        0x45u8 => Some("DROP"),
        0x46u8 => Some("NIP"),
        0x48u8 => Some("XDROP"),
        0x49u8 => Some("CLEAR"),
        0x4Au8 => Some("DUP"),
        0x4Bu8 => Some("OVER"),
        0x4Du8 => Some("PICK"),
        0x4Eu8 => Some("TUCK"),
        0x50u8 => Some("SWAP"),
        0x51u8 => Some("ROT"),
        0x52u8 => Some("ROLL"),
        0x53u8 => Some("REVERSE3"),
        0x54u8 => Some("REVERSE4"),
        0x55u8 => Some("REVERSEN"),
        0x56u8 => Some("INITSSLOT"),
        0x57u8 => Some("INITSLOT"),
        0x58u8 => Some("LDSFLD0"),
        0x59u8 => Some("LDSFLD1"),
        0x5Au8 => Some("LDSFLD2"),
        0x5Bu8 => Some("LDSFLD3"),
        0x5Cu8 => Some("LDSFLD4"),
        0x5Du8 => Some("LDSFLD5"),
        0x5Eu8 => Some("LDSFLD6"),
        0x5Fu8 => Some("LDSFLD"),
        0x60u8 => Some("STSFLD0"),
        0x61u8 => Some("STSFLD1"),
        0x62u8 => Some("STSFLD2"),
        0x63u8 => Some("STSFLD3"),
        0x64u8 => Some("STSFLD4"),
        0x65u8 => Some("STSFLD5"),
        0x66u8 => Some("STSFLD6"),
        0x67u8 => Some("STSFLD"),
        0x68u8 => Some("LDLOC0"),
        0x69u8 => Some("LDLOC1"),
        0x6Au8 => Some("LDLOC2"),
        0x6Bu8 => Some("LDLOC3"),
        0x6Cu8 => Some("LDLOC4"),
        0x6Du8 => Some("LDLOC5"),
        0x6Eu8 => Some("LDLOC6"),
        0x6Fu8 => Some("LDLOC"),
        0x70u8 => Some("STLOC0"),
        0x71u8 => Some("STLOC1"),
        0x72u8 => Some("STLOC2"),
        0x73u8 => Some("STLOC3"),
        0x74u8 => Some("STLOC4"),
        0x75u8 => Some("STLOC5"),
        0x76u8 => Some("STLOC6"),
        0x77u8 => Some("STLOC"),
        0x78u8 => Some("LDARG0"),
        0x79u8 => Some("LDARG1"),
        0x7Au8 => Some("LDARG2"),
        0x7Bu8 => Some("LDARG3"),
        0x7Cu8 => Some("LDARG4"),
        0x7Du8 => Some("LDARG5"),
        0x7Eu8 => Some("LDARG6"),
        0x7Fu8 => Some("LDARG"),
        0x80u8 => Some("STARG0"),
        0x81u8 => Some("STARG1"),
        0x82u8 => Some("STARG2"),
        0x83u8 => Some("STARG3"),
        0x84u8 => Some("STARG4"),
        0x85u8 => Some("STARG5"),
        0x86u8 => Some("STARG6"),
        0x87u8 => Some("STARG"),
        0x88u8 => Some("NEWBUFFER"),
        0x89u8 => Some("MEMCPY"),
        0x8Bu8 => Some("CAT"),
        0x8Cu8 => Some("SUBSTR"),
        0x8Du8 => Some("LEFT"),
        0x8Eu8 => Some("RIGHT"),
        0x90u8 => Some("INVERT"),
        0x91u8 => Some("AND"),
        0x92u8 => Some("OR"),
        0x93u8 => Some("XOR"),
        0x97u8 => Some("EQUAL"),
        0x98u8 => Some("NOTEQUAL"),
        0x99u8 => Some("SIGN"),
        0x9Au8 => Some("ABS"),
        0x9Bu8 => Some("NEGATE"),
        0x9Cu8 => Some("INC"),
        0x9Du8 => Some("DEC"),
        0x9Eu8 => Some("ADD"),
        0x9Fu8 => Some("SUB"),
        0xA0u8 => Some("MUL"),
        0xA1u8 => Some("DIV"),
        0xA2u8 => Some("MOD"),
        0xA3u8 => Some("POW"),
        0xA4u8 => Some("SQRT"),
        0xA5u8 => Some("MODMUL"),
        0xA6u8 => Some("MODPOW"),
        0xA8u8 => Some("SHL"),
        0xA9u8 => Some("SHR"),
        0xAAu8 => Some("NOT"),
        0xABu8 => Some("BOOLAND"),
        0xACu8 => Some("BOOLOR"),
        0xB1u8 => Some("NZ"),
        0xB3u8 => Some("NUMEQUAL"),
        0xB4u8 => Some("NUMNOTEQUAL"),
        0xB5u8 => Some("LT"),
        0xB6u8 => Some("LE"),
        0xB7u8 => Some("GT"),
        0xB8u8 => Some("GE"),
        0xB9u8 => Some("MIN"),
        0xBAu8 => Some("MAX"),
        0xBBu8 => Some("WITHIN"),
        0xBEu8 => Some("PACKMAP"),
        0xBFu8 => Some("PACKSTRUCT"),
        0xC0u8 => Some("PACK"),
        0xC1u8 => Some("UNPACK"),
        0xC2u8 => Some("NEWARRAY0"),
        0xC3u8 => Some("NEWARRAY"),
        0xC4u8 => Some("NEWARRAY_T"),
        0xC5u8 => Some("NEWSTRUCT0"),
        0xC6u8 => Some("NEWSTRUCT"),
        0xC8u8 => Some("NEWMAP"),
        0xCAu8 => Some("SIZE"),
        0xCBu8 => Some("HASKEY"),
        0xCCu8 => Some("KEYS"),
        0xCDu8 => Some("VALUES"),
        0xCEu8 => Some("PICKITEM"),
        0xCFu8 => Some("APPEND"),
        0xD0u8 => Some("SETITEM"),
        0xD1u8 => Some("REVERSEITEMS"),
        0xD2u8 => Some("REMOVE"),
        0xD3u8 => Some("CLEARITEMS"),
        0xD4u8 => Some("POPITEM"),
        0xD8u8 => Some("ISNULL"),
        0xD9u8 => Some("ISTYPE"),
        0xDBu8 => Some("CONVERT"),
        0xE0u8 => Some("ABORTMSG"),
        0xE1u8 => Some("ASSERTMSG"),
        _ => None,
    }
}

/// Returns the immediate-operand size of an opcode byte.
pub fn operand_size(byte: u8) -> (r: u8)
    ensures
        r == spec_operand_size(byte),
{
    match byte {
        0x00u8 => 1u8,
        0x01u8 => 2u8,
        0x02u8 => 4u8,
        0x03u8 => 8u8,
        0x04u8 => 16u8,
        0x05u8 => 32u8,
        0x0Au8 => 4u8,
        0x22u8 => 1u8,
        0x23u8 => 4u8,
        0x24u8 => 1u8,
        0x25u8 => 4u8,
        0x26u8 => 1u8,
        0x27u8 => 4u8,
        0x28u8 => 1u8,
        0x29u8 => 4u8,
        0x2Au8 => 1u8,
        0x2Bu8 => 4u8,
        0x2Cu8 => 1u8,
        0x2Du8 => 4u8,
        0x2Eu8 => 1u8,
        0x2Fu8 => 4u8,
        0x30u8 => 1u8,
        0x31u8 => 4u8,
        0x32u8 => 1u8,
        0x33u8 => 4u8,
        0x34u8 => 1u8,
        0x35u8 => 4u8,
        0x37u8 => 2u8,
        0x3Bu8 => 2u8,
        0x3Cu8 => 8u8,
        0x3Du8 => 1u8,
        0x3Eu8 => 4u8,
        0x41u8 => 4u8,
        0x56u8 => 1u8,
        0x57u8 => 2u8,
        0x5Fu8 => 1u8,
        0x67u8 => 1u8,
        0x6Fu8 => 1u8,
        0x77u8 => 1u8,
        0x7Fu8 => 1u8,
        0x87u8 => 1u8,
        0xC4u8 => 1u8,
        0xD9u8 => 1u8,
        0xDBu8 => 1u8,
        _ => 0u8,
    }
}

/// Returns the length-prefix size of an opcode byte's variable operand.
pub fn operand_prefix(byte: u8) -> (r: u8)
    ensures
        r == spec_operand_prefix(byte),
{
    match byte {
        0x0Cu8 => 1u8,
        0x0Du8 => 2u8,
        0x0Eu8 => 4u8,
        _ => 0u8,
    }
}

/// Returns the operand layout of an opcode byte, or `None` for an undefined byte.
pub fn opcode_info(byte: u8) -> (r: Option<OpcodeInfo>)
    ensures
        r == spec_opcode_info(byte),
{
    match opcode_name(byte) {
        Some(_) => Some(OpcodeInfo {
            byte,
            operand_size: operand_size(byte),
            operand_size_prefix: operand_prefix(byte),
        }),
        None => None,
    }
}

/// An opcode byte whose mnemonic is exactly the given bytes.
pub open spec fn opcode_named(byte: u8, name: Seq<u8>) -> bool {
    spec_opcode_name(byte) matches Some(n) && n.spec_bytes() == name
}

/// Finds an opcode by its exact mnemonic.
pub fn lookup_opcode(name: &str) -> (r: Option<OpcodeInfo>)
    ensures
        r matches Some(info) ==> {
            &&& spec_opcode_info(info.byte) == Some(info)
            &&& opcode_named(info.byte, name.spec_bytes())
        },
        r is None ==> forall|b: u8| !#[trigger] opcode_named(b, name.spec_bytes()),
{
    let wanted = name.as_bytes();
    let mut b: u16 = 0;
    while b < 256
        invariant
            b <= 256,
            wanted@ == name.spec_bytes(),
            forall|c: u8| (c as u16) < b ==> !#[trigger] opcode_named(c, name.spec_bytes()),
        decreases 256 - b,
    {
        let byte = b as u8;
        match opcode_name(byte) {
            Some(n) => {
                if bytes_equal(n.as_bytes(), wanted) {
                    return opcode_info(byte);
                }
            },
            None => {},
        }
        b = b + 1;
    }
    assert forall|c: u8| !#[trigger] opcode_named(c, name.spec_bytes()) by {
        assert((c as u16) < b);
    }
    None
}

} // verus!
