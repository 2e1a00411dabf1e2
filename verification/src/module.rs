//! The parts of a WebAssembly module that the translator reads, as plain values.

use vstd::prelude::*;

verus! {

/// A WebAssembly value type.
#[derive(Debug, Clone, Copy, PartialEq, Eq, Structural)]
pub enum ValKind {
    I32,
    I64,
    F32,
    F64,
    V128,
    /// Any reference type.
    Ref,
}

/// A function signature.
#[derive(Debug, Clone)]
pub struct FuncSig {
    pub params: Vec<ValKind>,
    pub results: Vec<ValKind>,
}

/// The type annotation of a block, loop or if.
#[derive(Debug, Clone, Copy, PartialEq, Eq, Structural)]
pub enum BlockKind {
    /// No parameters and no results.
    Empty,
    /// No parameters and one result of this type.
    Value(ValKind),
    /// The signature at this index of the type section.
    FuncType(u32),
}

/// The comparison operators, by width and signedness.
#[derive(Debug, Clone, Copy, PartialEq, Eq, Structural)]
pub enum CmpKind {
    Eq,
    Ne,
    LtS,
    LtU,
    GtS,
    GtU,
    LeS,
    LeU,
    GeS,
    GeU,
}

/// The two-operand arithmetic and bitwise operators.
#[derive(Debug, Clone, Copy, PartialEq, Eq, Structural)]
pub enum ArithKind {
    Add,
    Sub,
    Mul,
    DivS,
    DivU,
    RemS,
    RemU,
    And,
    Or,
    Xor,
    Shl,
    ShrS,
    ShrU,
    Rotl,
    Rotr,
}

/// Why an operator is outside what the translator handles.
#[derive(Debug, Clone, Copy, PartialEq, Eq, Structural)]
pub enum Unsupported {
    /// A floating-point operator.
    Float,
    /// A SIMD operator.
    Simd,
    /// An operator whose NeoVM form this library does not emit: memory and table access,
    /// globals, bit counting, sign and zero extension, `select`, indirect calls and references.
    NotEmitted,
    /// Any other operator.
    Other,
}

/// One WebAssembly instruction, as the translator reads it.
#[derive(Debug, Clone)]
pub enum WasmOp {
    Unreachable,
    Nop,
    Block(BlockKind),
    Loop(BlockKind),
    If(BlockKind),
    Else,
    End,
    Br(u32),
    BrIf(u32),
    BrTable { targets: Vec<u32>, default: u32 },
    Return,
    Call(u32),
    Drop,
    LocalGet(u32),
    LocalSet(u32),
    LocalTee(u32),
    I32Const(i32),
    I64Const(i64),
    /// `i32.eqz` when the flag is false, `i64.eqz` when it is true.
    Eqz { wide: bool },
    Compare { wide: bool, kind: CmpKind },
    Arith { wide: bool, kind: ArithKind },
    /// An operator the translator rejects, with its name.
    Unsupported { class: Unsupported, name: String },
}

/// A function import.
#[derive(Debug, Clone)]
pub struct FunctionImport {
    pub module: String,
    pub name: String,
    pub type_index: u32,
}

/// The locals and instructions of one function body.
#[derive(Debug, Clone)]
pub struct CodeBody {
    /// Runs of locals: a count and the type of each of them.
    pub locals: Vec<(u32, ValKind)>,
    pub ops: Vec<WasmOp>,
    /// Whether the body contains `call_indirect`.
    pub calls_indirect: bool,
}

/// The limits of a table.
#[derive(Debug, Clone, Copy)]
pub struct TableDesc {
    pub initial: u64,
    pub maximum: Option<u32>,
}

/// The limits of a memory, in pages.
#[derive(Debug, Clone, Copy)]
pub struct MemoryDesc {
    pub initial: u32,
    pub maximum: Option<u32>,
}

/// One export of a function.
#[derive(Debug, Clone)]
pub struct FunctionExport {
    pub name: String,
    pub index: u32,
}

/// How an element segment is placed.
#[derive(Debug, Clone)]
pub enum SegmentMode {
    Passive,
    Declared,
    /// An active segment for table `table`, at `offset` when its offset expression is an
    /// integer constant.
    Active { table: u32, offset: Option<i64> },
}

/// What one constant expression of an element segment yields.
#[derive(Debug, Clone)]
pub enum ExprItem {
    /// `ref.func` of this function.
    Func(u32),
    /// `ref.null func`.
    Null,
    /// An instruction an element expression may not hold (or a null reference of another
    /// type), named.
    Unsupported(String),
    /// An expression that yields nothing.
    Empty,
}

/// The items of an element segment.
#[derive(Debug, Clone)]
pub enum SegmentItems {
    /// Function indices.
    Functions(Vec<u32>),
    /// Constant expressions, and whether their type is nullable function references.
    Expressions(bool, Vec<ExprItem>),
}

/// An element segment as plain values.
#[derive(Debug, Clone)]
pub struct ElementSegment {
    pub mode: SegmentMode,
    pub items: SegmentItems,
}

/// What the translator reads of a module.
#[derive(Debug, Clone)]
pub struct WasmModule {
    /// The function signatures of the type section.
    pub types: Vec<FuncSig>,
    /// The function imports, in order: function `i` is import `i` for `i` below their number.
    pub imports: Vec<FunctionImport>,
    /// The type index of each defined function.
    pub functions: Vec<u32>,
    pub tables: Vec<TableDesc>,
    pub memories: Vec<MemoryDesc>,
    /// The value type of each global.
    pub globals: Vec<ValKind>,
    /// The function exports, in the order of the export section.
    pub exports: Vec<FunctionExport>,
    pub start: Option<u32>,
    /// The functions that element segments reference.
    pub element_functions: Vec<u32>,
    /// The functions that `ref.func` in function bodies references.
    pub ref_functions: Vec<u32>,
    /// The bodies of the defined functions, in order.
    pub bodies: Vec<CodeBody>,
    /// Whether the module has a code section.
    pub has_code_section: bool,
    /// The custom sections: each name and payload, in order.
    pub custom_sections: Vec<(String, Vec<u8>)>,
}

} // verus!
