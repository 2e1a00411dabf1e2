//! Errors reported while checking and translating a module.

use vstd::prelude::*;

use crate::module::{Unsupported, ValKind};

verus! {

/// Why a module could not be translated.
#[derive(Debug, Clone, PartialEq, Eq)]
pub enum TranslateError {
    /// The input is shorter than the 8-byte WebAssembly preamble.
    HeaderTooShort { len: usize },
    /// The first four bytes are not `\0asm`.
    BadMagic { found: [u8; 4] },
    /// The version field is not 1.
    UnsupportedVersion { found: [u8; 4] },
    /// A jump or call displacement does not fit in 32 bits, or its fixup lies outside the script.
    JumpOutOfRange { from: usize, to: usize },
    /// A slot index above 255 cannot be encoded as a one-byte operand.
    SlotIndexTooLarge { index: u32 },
    /// A byte string is too long for any PUSHDATA form.
    DataTooLong { len: usize },
    /// An operator needs more operands than the Wasm operand stack holds.
    StackUnderflow,
    /// A PICK reaches below the tracked operand stack.
    PickOutOfRange { index: usize },
    /// A branch names a construct outside the open ones.
    BranchTooDeep { depth: usize, frames: usize },
    /// The operand stack does not hold what a branch target expects.
    BranchStackMismatch { expected: usize, found: usize },
    /// A stack height does not fit the machine word.
    StackHeightOverflow,
    /// A block type names a signature outside the type section.
    BlockTypeOutOfBounds { index: u32 },
    /// A block type has parameters.
    BlockParameters { index: u32 },
    /// A block yields more than one value.
    MultiValueBlock,
    /// A value of this type cannot be translated.
    UnsupportedType { kind: ValKind },
    /// A call names a function index beyond the imports where an import is expected.
    CallToUnknownImport { index: u32 },
    /// A type index lies outside the type section.
    InvalidTypeIndex { index: u32 },
    /// An import comes from a module the translator does not map.
    UnsupportedImportModule { module: String, name: String },
    /// A `syscall` import names no known interop service.
    UnknownSyscall { name: String },
    /// A `neo` import names no known service.
    UnknownNeoImport { name: String },
    /// An `opcode` import names no NeoVM instruction.
    UnknownOpcodeImport { name: String },
    /// An `opcode` import names an instruction whose operand has a variable size.
    VariableSizeOperand { name: String },
    /// An `opcode` import declares a result.
    OpcodeImportReturnsValue { name: String },
    /// An import receives a different number of arguments than it takes.
    ImportParamCount { expected: usize, found: usize },
    /// An `opcode` import for an instruction without operand receives an argument.
    OpcodeTakesNoImmediate { name: String },
    /// An instruction's operand size has no immediate encoding.
    UnsupportedOperandSize { size: u8 },
    /// An immediate argument is not a compile-time constant.
    ArgumentNotConstant,
    /// An immediate argument was not pushed by a rewindable literal instruction.
    ArgumentNotLiteral,
    /// An immediate width outside 1 to 32 bytes.
    UnsupportedImmediateWidth { bytes: usize },
    /// A constant does not fit the immediate it is written to.
    LiteralTooWide { value: i128, bytes: usize },
    /// A literal's recorded position lies outside the script.
    InvalidLiteralStart { start: usize },
    /// The instruction at a literal's recorded position is not a literal push.
    UnknownLiteralOpcode { opcode: u8 },
    /// A `neo` import has a signature its service does not take.
    NeoImportSignature { name: String },
    /// The construct needs a runtime helper routine of the translator.
    RuntimeHelperRequired { name: String },
    /// `wasmparser` could not decode the module.
    Decode { message: String },
    /// The parser asked for more data than the module holds.
    TruncatedModule,
    /// A global import.
    GlobalImport { module: String, name: String },
    /// An import of a table, memory or tag.
    NonFunctionImport { name: String },
    /// A table with 64-bit indices.
    Table64,
    /// A shared table.
    SharedTable,
    /// A table of references other than nullable function references.
    NonFuncrefTable,
    /// A table limit outside the 32-bit range.
    TableLimit,
    /// A memory with 64-bit addresses.
    Memory64,
    /// A shared memory.
    SharedMemory,
    /// A memory limit outside the 32-bit range.
    MemoryLimit,
    /// A global of a type other than i32 and i64.
    UnsupportedGlobalType { kind: ValKind },
    /// More than one start section.
    MultipleStart,
    /// A tag section (exception handling).
    ExceptionTags,
    /// A declared element segment.
    DeclaredElements,
    /// An active element segment at a negative offset.
    NegativeElementOffset { offset: i64 },
    /// An active element segment for a table the module does not declare.
    UnknownElementTable { index: u32, tables: usize },
    /// An element segment references a function whose index does not fit a table entry (an
    /// `i32`).
    ElementFunctionIndexTooLarge { index: u32 },
    /// Element expressions of a reference type other than nullable function references.
    NonFuncrefElements,
    /// An element expression that is neither `ref.func`, `ref.null func` nor `end`.
    UnsupportedElementExpression { name: String },
    /// An element expression that yields no value.
    EmptyElementExpression,
    /// More than the machine word of payloads.
    TooManyPayloads,
    /// A function returns more than one value.
    MultiValueReturn,
    /// A function has more parameters than INITSLOT can declare.
    TooManyParams { count: usize },
    /// A function has more locals than INITSLOT can declare.
    TooManyLocals { count: u32 },
    /// The number of locals overflows.
    LocalCountOverflow,
    /// `local.get`, `local.set` or `local.tee` names a local the function does not have.
    LocalIndexOutOfBounds { index: u32 },
    /// `else` with no open construct.
    ElseWithoutIf,
    /// `else` inside a construct that is not an `if`.
    ElseOutsideIf,
    /// `end` with no open construct.
    EndWithoutBlock,
    /// An `if` that yields a value has no `else`.
    IfResultNeedsElse,
    /// A construct ends, or an `if` arm ends, with fewer values than it yields.
    BlockResultMissing { expected: usize, found: usize },
    /// A function body ends inside a construct.
    UnclosedBlock,
    /// A call names a function the module does not have.
    FunctionIndexOutOfRange { index: u32 },
    /// No signature is recorded for a function.
    MissingFunctionType { index: usize },
    /// A call passes a different number of arguments than the callee takes.
    CallArity { function: u32, expected: usize, found: usize },
    /// An operator the translator does not handle.
    UnsupportedOperator { class: Unsupported, name: String },
    /// The module has no code section and no exported import.
    NoCodeSection,
    /// Exports whose functions were not translated.
    MissingExports { names: Vec<String> },
    /// No exported function was translated.
    NoExports,
    /// The start function takes parameters or returns values.
    StartSignature,
    /// The contract name is empty.
    EmptyContractName,
    /// An export names a function beyond the imports and definitions.
    ExportOutOfRange { index: u32 },
    /// Manifest overlays mark methods safe that no export names, in lexicographic order.
    UnexportedSafeMethods { names: Vec<String> },
}

impl TranslateError {
    /// The message that describes an error.
    pub open spec fn description(&self) -> Seq<char> {
        match *self {
            TranslateError::HeaderTooShort { .. } =>
                "input is not a valid WebAssembly module: expected at least an 8-byte header"@,
            TranslateError::BadMagic { .. } =>
                "input is not a valid WebAssembly module: bad magic number (expected 00 61 73 6d)"@,
            TranslateError::UnsupportedVersion { .. } =>
                "unsupported WebAssembly version: expected 1 (01 00 00 00)"@,
            TranslateError::JumpOutOfRange { .. } =>
                "jump or call target is out of range"@,
            TranslateError::SlotIndexTooLarge { .. } =>
                "slot index exceeds NeoVM operand limit (0-255)"@,
            TranslateError::DataTooLong { .. } => "byte string is too long to push"@,
            TranslateError::StackUnderflow => "stack underflow"@,
            TranslateError::PickOutOfRange { .. } => "PICK index out of range"@,
            TranslateError::BranchTooDeep { .. } => "branch depth exceeds current control stack"@,
            TranslateError::BranchStackMismatch { .. } =>
                "branch target expects a different number of values on the stack"@,
            TranslateError::StackHeightOverflow => "stack height overflow"@,
            TranslateError::BlockTypeOutOfBounds { .. } => "block type index out of bounds"@,
            TranslateError::BlockParameters { .. } =>
                "block type carries parameters; block parameters are unsupported"@,
            TranslateError::MultiValueBlock => "blocks with multi-value results are not supported"@,
            TranslateError::CallToUnknownImport { .. } =>
                "calls to user-defined functions are not supported"@,
            TranslateError::InvalidTypeIndex { .. } => "invalid type index"@,
            TranslateError::UnsupportedImportModule { .. } => "unsupported import module"@,
            TranslateError::UnknownSyscall { .. } => "unknown syscall"@,
            TranslateError::UnknownNeoImport { .. } => "unknown Neo syscall import"@,
            TranslateError::UnknownOpcodeImport { .. } => "unknown NeoVM opcode"@,
            TranslateError::VariableSizeOperand { .. } =>
                "opcode has a variable-size operand; emit it manually via opcode.raw/raw4"@,
            TranslateError::OpcodeImportReturnsValue { .. } =>
                "imported opcode must have signature (param ..., result void)"@,
            TranslateError::ImportParamCount { .. } =>
                "import received a different number of parameters than it expects"@,
            TranslateError::OpcodeTakesNoImmediate { .. } =>
                "opcode does not take immediate operands"@,
            TranslateError::UnsupportedOperandSize { .. } =>
                "unsupported operand size; use opcode.raw/raw4"@,
            TranslateError::ArgumentNotConstant =>
                "import argument must be a compile-time constant"@,
            TranslateError::ArgumentNotLiteral =>
                "import argument cannot be materialised as an immediate; ensure it is a literal"@,
            TranslateError::UnsupportedImmediateWidth { .. } => "unsupported immediate width"@,
            TranslateError::LiteralTooWide { .. } =>
                "literal value does not fit in the opcode immediate"@,
            TranslateError::InvalidLiteralStart { .. } =>
                "literal start beyond current script length"@,
            TranslateError::UnknownLiteralOpcode { .. } =>
                "unable to determine literal length for opcode"@,
            TranslateError::NeoImportSignature { .. } => "neo import has an unsupported signature"@,
            TranslateError::RuntimeHelperRequired { .. } =>
                "construct needs a runtime helper routine, which this translator does not emit"@,
            TranslateError::Decode { .. } => "the module could not be decoded"@,
            TranslateError::TruncatedModule => "the module ends unexpectedly"@,
            TranslateError::GlobalImport { .. } => "global imports are not supported"@,
            TranslateError::NonFunctionImport { .. } => "only function imports are supported"@,
            TranslateError::Table64 => "table64 is not supported"@,
            TranslateError::SharedTable => "shared tables are not supported"@,
            TranslateError::NonFuncrefTable =>
                "only funcref tables are supported (NeoVM only models funcref handles)"@,
            TranslateError::TableLimit => "table size exceeds the 32-bit range"@,
            TranslateError::Memory64 => "memory64 is not supported"@,
            TranslateError::SharedMemory => "shared memories are not supported"@,
            TranslateError::MemoryLimit => "memory size exceeds the 32-bit range"@,
            TranslateError::UnsupportedGlobalType { .. } => "only i32/i64 globals are supported"@,
            TranslateError::MultipleStart => "module contains multiple start sections"@,
            TranslateError::ExceptionTags =>
                "exception tags are not supported (exception-handling proposal)"@,
            TranslateError::DeclaredElements => "declared element segments are not supported"@,
            TranslateError::NegativeElementOffset { .. } =>
                "element segment offset must be non-negative"@,
            TranslateError::UnknownElementTable { .. } =>
                "element segment references unknown table index"@,
            TranslateError::ElementFunctionIndexTooLarge { .. } =>
                "function index exceeds i32 range for table representation"@,
            TranslateError::NonFuncrefElements =>
                "element expressions for reference types other than funcref are not supported"@,
            TranslateError::UnsupportedElementExpression { .. } =>
                "unsupported instruction in element segment expression"@,
            TranslateError::EmptyElementExpression => "element expression did not yield a value"@,
            TranslateError::TooManyPayloads => "the module has too many sections"@,
            TranslateError::MultiValueReturn => "multi-value returns are not supported"@,
            TranslateError::TooManyParams { .. } =>
                "function has too many parameters for NeoVM INITSLOT"@,
            TranslateError::TooManyLocals { .. } => "function has too many locals for NeoVM INITSLOT"@,
            TranslateError::LocalCountOverflow => "function local count overflow"@,
            TranslateError::LocalIndexOutOfBounds { .. } => "local index out of bounds"@,
            TranslateError::ElseWithoutIf => "ELSE without matching IF"@,
            TranslateError::ElseOutsideIf => "ELSE can only appear within an IF block"@,
            TranslateError::EndWithoutBlock => "END without matching block"@,
            TranslateError::IfResultNeedsElse => "if with a result type requires an else branch"@,
            TranslateError::BlockResultMissing { .. } =>
                "block expected more values on the stack at its end"@,
            TranslateError::UnclosedBlock => "unclosed block detected at end of function"@,
            TranslateError::FunctionIndexOutOfRange { .. } => "function index out of bounds"@,
            TranslateError::MissingFunctionType { .. } => "no type index recorded for function"@,
            TranslateError::CallArity { .. } =>
                "function called with a different number of arguments than it takes"@,
            TranslateError::UnsupportedOperator { .. } => "unsupported Wasm operator"@,
            TranslateError::NoCodeSection => "input module does not contain a code section"@,
            TranslateError::MissingExports { .. } => "did not translate exported functions"@,
            TranslateError::NoExports =>
                "no exportable functions were translated – ensure functions are exported and meet translation constraints"@,
            TranslateError::StartSignature =>
                "start function must not take parameters or return values"@,
            TranslateError::EmptyContractName => "contract name cannot be empty"@,
            TranslateError::ExportOutOfRange { .. } => "export references a missing function"@,
            TranslateError::UnexportedSafeMethods { .. } =>
                "manifest overlays marked methods safe that were not exported"@,
            TranslateError::UnsupportedType { .. } =>
                "only i32/i64 values are supported (floating point, SIMD and reference types are not)"@,
        }
    }

    /// A short human-readable description of the error.
    pub fn describe(&self) -> (r: &'static str)
        ensures
            r@ == self.description(),
    {
        match self {
            TranslateError::HeaderTooShort { .. } =>
                "input is not a valid WebAssembly module: expected at least an 8-byte header",
            TranslateError::BadMagic { .. } =>
                "input is not a valid WebAssembly module: bad magic number (expected 00 61 73 6d)",
            TranslateError::UnsupportedVersion { .. } =>
                "unsupported WebAssembly version: expected 1 (01 00 00 00)",
            TranslateError::JumpOutOfRange { .. } =>
                "jump or call target is out of range",
            TranslateError::SlotIndexTooLarge { .. } =>
                "slot index exceeds NeoVM operand limit (0-255)",
            TranslateError::DataTooLong { .. } => "byte string is too long to push",
            TranslateError::StackUnderflow => "stack underflow",
            TranslateError::PickOutOfRange { .. } => "PICK index out of range",
            TranslateError::BranchTooDeep { .. } => "branch depth exceeds current control stack",
            TranslateError::BranchStackMismatch { .. } =>
                "branch target expects a different number of values on the stack",
            TranslateError::StackHeightOverflow => "stack height overflow",
            TranslateError::BlockTypeOutOfBounds { .. } => "block type index out of bounds",
            TranslateError::BlockParameters { .. } =>
                "block type carries parameters; block parameters are unsupported",
            TranslateError::MultiValueBlock => "blocks with multi-value results are not supported",
            TranslateError::CallToUnknownImport { .. } =>
                "calls to user-defined functions are not supported",
            TranslateError::InvalidTypeIndex { .. } => "invalid type index",
            TranslateError::UnsupportedImportModule { .. } => "unsupported import module",
            TranslateError::UnknownSyscall { .. } => "unknown syscall",
            TranslateError::UnknownNeoImport { .. } => "unknown Neo syscall import",
            TranslateError::UnknownOpcodeImport { .. } => "unknown NeoVM opcode",
            TranslateError::VariableSizeOperand { .. } =>
                "opcode has a variable-size operand; emit it manually via opcode.raw/raw4",
            TranslateError::OpcodeImportReturnsValue { .. } =>
                "imported opcode must have signature (param ..., result void)",
            TranslateError::ImportParamCount { .. } =>
                "import received a different number of parameters than it expects",
            TranslateError::OpcodeTakesNoImmediate { .. } =>
                "opcode does not take immediate operands",
            TranslateError::UnsupportedOperandSize { .. } =>
                "unsupported operand size; use opcode.raw/raw4",
            TranslateError::ArgumentNotConstant =>
                "import argument must be a compile-time constant",
            TranslateError::ArgumentNotLiteral =>
                "import argument cannot be materialised as an immediate; ensure it is a literal",
            TranslateError::UnsupportedImmediateWidth { .. } => "unsupported immediate width",
            TranslateError::LiteralTooWide { .. } =>
                "literal value does not fit in the opcode immediate",
            TranslateError::InvalidLiteralStart { .. } =>
                "literal start beyond current script length",
            TranslateError::UnknownLiteralOpcode { .. } =>
                "unable to determine literal length for opcode",
            TranslateError::NeoImportSignature { .. } => "neo import has an unsupported signature",
            TranslateError::RuntimeHelperRequired { .. } =>
                "construct needs a runtime helper routine, which this translator does not emit",
            TranslateError::Decode { .. } => "the module could not be decoded",
            TranslateError::TruncatedModule => "the module ends unexpectedly",
            TranslateError::GlobalImport { .. } => "global imports are not supported",
            TranslateError::NonFunctionImport { .. } => "only function imports are supported",
            TranslateError::Table64 => "table64 is not supported",
            TranslateError::SharedTable => "shared tables are not supported",
            TranslateError::NonFuncrefTable =>
                "only funcref tables are supported (NeoVM only models funcref handles)",
            TranslateError::TableLimit => "table size exceeds the 32-bit range",
            TranslateError::Memory64 => "memory64 is not supported",
            TranslateError::SharedMemory => "shared memories are not supported",
            TranslateError::MemoryLimit => "memory size exceeds the 32-bit range",
            TranslateError::UnsupportedGlobalType { .. } => "only i32/i64 globals are supported",
            TranslateError::MultipleStart => "module contains multiple start sections",
            TranslateError::ExceptionTags =>
                "exception tags are not supported (exception-handling proposal)",
            TranslateError::DeclaredElements => "declared element segments are not supported",
            TranslateError::NegativeElementOffset { .. } =>
                "element segment offset must be non-negative",
            TranslateError::UnknownElementTable { .. } =>
                "element segment references unknown table index",
            TranslateError::ElementFunctionIndexTooLarge { .. } =>
                "function index exceeds i32 range for table representation",
            TranslateError::NonFuncrefElements =>
                "element expressions for reference types other than funcref are not supported",
            TranslateError::UnsupportedElementExpression { .. } =>
                "unsupported instruction in element segment expression",
            TranslateError::EmptyElementExpression => "element expression did not yield a value",
            TranslateError::TooManyPayloads => "the module has too many sections",
            TranslateError::MultiValueReturn => "multi-value returns are not supported",
            TranslateError::TooManyParams { .. } =>
                "function has too many parameters for NeoVM INITSLOT",
            TranslateError::TooManyLocals { .. } => "function has too many locals for NeoVM INITSLOT",
            TranslateError::LocalCountOverflow => "function local count overflow",
            TranslateError::LocalIndexOutOfBounds { .. } => "local index out of bounds",
            TranslateError::ElseWithoutIf => "ELSE without matching IF",
            TranslateError::ElseOutsideIf => "ELSE can only appear within an IF block",
            TranslateError::EndWithoutBlock => "END without matching block",
            TranslateError::IfResultNeedsElse => "if with a result type requires an else branch",
            TranslateError::BlockResultMissing { .. } =>
                "block expected more values on the stack at its end",
            TranslateError::UnclosedBlock => "unclosed block detected at end of function",
            TranslateError::FunctionIndexOutOfRange { .. } => "function index out of bounds",
            TranslateError::MissingFunctionType { .. } => "no type index recorded for function",
            TranslateError::CallArity { .. } =>
                "function called with a different number of arguments than it takes",
            TranslateError::UnsupportedOperator { .. } => "unsupported Wasm operator",
            TranslateError::NoCodeSection => "input module does not contain a code section",
            TranslateError::MissingExports { .. } => "did not translate exported functions",
            TranslateError::NoExports =>
                "no exportable functions were translated – ensure functions are exported and meet translation constraints",
            TranslateError::StartSignature =>
                "start function must not take parameters or return values",
            TranslateError::EmptyContractName => "contract name cannot be empty",
            TranslateError::ExportOutOfRange { .. } => "export references a missing function",
            TranslateError::UnexportedSafeMethods { .. } =>
                "manifest overlays marked methods safe that were not exported",
            TranslateError::UnsupportedType { .. } =>
                "only i32/i64 values are supported (floating point, SIMD and reference types are not)",
        }
    }
}

} // verus!
