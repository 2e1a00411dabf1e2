//! Access to the WebAssembly binary through `wasmparser`.
//!
//! Each function here makes one call into `wasmparser`, or converts one of its values into a
//! plain value of this library. Nothing is proved of what `wasmparser` decodes: the loops that
//! walk the module are verified elsewhere, for every outcome of these calls.

use vstd::prelude::*;

use crate::module::{ArithKind, BlockKind, CmpKind, ValKind, WasmOp};

use wasmparser::{
    AbstractHeapType, BinaryReaderError, BlockType, BrTable, BrTableTargets, CompositeInnerType, ConstExpr,
    CustomSectionReader, Element,
    ElementItems, ElementKind, Export, ExternalKind, FuncType, FunctionBody, Global, HeapType, Import,
    Imports, ImportsIter, LocalsReader, MemoryType, Operator, OperatorsReader, Parser, Payload,
    RecGroup, RefType, SectionLimited, SectionLimitedIntoIter, Table, TypeRef, ValType,
};

verus! {

#[verifier::external_type_specification]
#[verifier::external_body]
pub struct ExParser(Parser);

#[verifier::external_type_specification]
#[verifier::external_body]
pub struct ExPayload<'a>(Payload<'a>);

#[verifier::external_type_specification]
#[verifier::external_body]
pub struct ExBinaryReaderError(BinaryReaderError);

#[verifier::external_type_specification]
#[verifier::external_body]
#[verifier::reject_recursive_types(T)]
pub struct ExSectionLimited<'a, T>(SectionLimited<'a, T>);

#[verifier::external_type_specification]
#[verifier::external_body]
#[verifier::reject_recursive_types(T)]
pub struct ExSectionLimitedIntoIter<'a, T>(SectionLimitedIntoIter<'a, T>);

#[verifier::external_type_specification]
#[verifier::external_body]
pub struct ExRecGroup(RecGroup);

#[verifier::external_type_specification]
#[verifier::external_body]
pub struct ExFuncType(FuncType);

#[verifier::external_type_specification]
#[verifier::external_body]
pub struct ExValType(ValType);

#[verifier::external_type_specification]
#[verifier::external_body]
pub struct ExBlockType(BlockType);

#[verifier::external_type_specification]
#[verifier::external_body]
pub struct ExFunctionBody<'a>(FunctionBody<'a>);

#[verifier::external_type_specification]
#[verifier::external_body]
pub struct ExOperatorsReader<'a>(OperatorsReader<'a>);

#[verifier::external_type_specification]
#[verifier::external_body]
pub struct ExLocalsReader<'a>(LocalsReader<'a>);

#[verifier::external_type_specification]
#[verifier::external_body]
pub struct ExOperator<'a>(Operator<'a>);

#[verifier::external_type_specification]
#[verifier::external_body]
pub struct ExBrTable<'a>(BrTable<'a>);

#[verifier::external_type_specification]
#[verifier::external_body]
pub struct ExBrTableTargets<'a>(BrTableTargets<'a>);

#[verifier::external_type_specification]
#[verifier::external_body]
pub struct ExImports<'a>(Imports<'a>);

#[verifier::external_type_specification]
#[verifier::external_body]
pub struct ExImportsIter<'a>(ImportsIter<'a>);

#[verifier::external_type_specification]
#[verifier::external_body]
pub struct ExImport<'a>(Import<'a>);

#[verifier::external_type_specification]
#[verifier::external_body]
pub struct ExExport<'a>(Export<'a>);

#[verifier::external_type_specification]
#[verifier::external_body]
pub struct ExTable<'a>(Table<'a>);

#[verifier::external_type_specification]
#[verifier::external_body]
pub struct ExMemoryType(MemoryType);

#[verifier::external_type_specification]
#[verifier::external_body]
pub struct ExGlobal<'a>(Global<'a>);

#[verifier::external_type_specification]
#[verifier::external_body]
pub struct ExElement<'a>(Element<'a>);

#[verifier::external_type_specification]
#[verifier::external_body]
pub struct ExConstExpr<'a>(ConstExpr<'a>);

#[verifier::external_type_specification]
#[verifier::external_body]
pub struct ExRefType(RefType);

#[verifier::external_type_specification]
#[verifier::external_body]
pub struct ExHeapType(HeapType);

#[verifier::external_type_specification]
#[verifier::external_body]
pub struct ExCustomSectionReader<'a>(CustomSectionReader<'a>);

/// One section or entry of a module, as the driver dispatches on it.
pub enum Section<'a> {
    Version,
    Types(SectionLimited<'a, RecGroup>),
    Imports(SectionLimited<'a, Imports<'a>>),
    Functions(SectionLimited<'a, u32>),
    Tables(SectionLimited<'a, Table<'a>>),
    Memories(SectionLimited<'a, MemoryType>),
    Globals(SectionLimited<'a, Global<'a>>),
    Exports(SectionLimited<'a, Export<'a>>),
    Start(u32),
    Elements(SectionLimited<'a, Element<'a>>),
    CodeStart,
    CodeEntry(FunctionBody<'a>),
    Tags,
    Custom(CustomSectionReader<'a>),
    /// The data count section.
    DataCount,
    /// The data section: the segments that initialise linear memory.
    Data,
    /// A section with an id the format does not define.
    Unknown,
    /// A section of the component model.
    Component,
    End,
    /// A payload kind added to `wasmparser` after this library was written.
    Other,
}

/// `Parser::new(0)`: a parser for a module that starts at offset 0.
///
/// Nothing is stated of the result, an opaque `wasmparser` value.
#[verifier::external_body]
pub(crate) fn new_parser() -> Parser {
    Parser::new(0)
}

/// `Parser::parse` on the unread rest of the module, with `eof` set as `Parser::parse_all` does:
/// the number of bytes the payload took and the payload, or `None` where the parser asks for
/// more data.
#[verifier::external_body]
pub(crate) fn parse_next<'a>(parser: &mut Parser, rest: &'a [u8]) -> (r: Result<
    Option<(usize, Payload<'a>)>,
    BinaryReaderError,
>)
    ensures
        r matches Ok(Some((consumed, _))) ==> consumed <= rest@.len(),
{
    match parser.parse(rest, true) {
        Ok(wasmparser::Chunk::Parsed { consumed, payload }) => Ok(Some((consumed, payload))),
        Ok(wasmparser::Chunk::NeedMoreData(_)) => Ok(None),
        Err(e) => Err(e),
    }
}

/// The `Display` text of a `wasmparser` error: its message and offset.
///
/// Nothing is stated of the result: the argument is an opaque `wasmparser` value.
#[verifier::external_body]
pub(crate) fn error_message(e: &BinaryReaderError) -> String {
    e.to_string()
}

/// Tells the module-level sections of a payload apart; any other payload is handed back.
///
/// Nothing is stated of the result: the argument is an opaque `wasmparser` value.
#[verifier::external_body]
pub(crate) fn classify_module_section<'a>(p: Payload<'a>) -> Result<Section<'a>, Payload<'a>> {
    match p {
        Payload::Version { .. } => Ok(Section::Version),
        Payload::TypeSection(r) => Ok(Section::Types(r)),
        Payload::ImportSection(r) => Ok(Section::Imports(r)),
        Payload::FunctionSection(r) => Ok(Section::Functions(r)),
        Payload::TableSection(r) => Ok(Section::Tables(r)),
        Payload::MemorySection(r) => Ok(Section::Memories(r)),
        Payload::GlobalSection(r) => Ok(Section::Globals(r)),
        Payload::ExportSection(r) => Ok(Section::Exports(r)),
        other => Err(other),
    }
}

/// Tells the sections around the code apart, one arm per kind; any other payload is handed
/// back.
///
/// Nothing is stated of the result: the argument is an opaque `wasmparser` value.
#[verifier::external_body]
pub(crate) fn classify_code_section<'a>(p: Payload<'a>) -> Result<Section<'a>, Payload<'a>> {
    match p {
        Payload::StartSection { func, .. } => Ok(Section::Start(func)),
        Payload::ElementSection(r) => Ok(Section::Elements(r)),
        Payload::CodeSectionStart { .. } => Ok(Section::CodeStart),
        Payload::CodeSectionEntry(body) => Ok(Section::CodeEntry(body)),
        Payload::TagSection(_) => Ok(Section::Tags),
        Payload::CustomSection(r) => Ok(Section::Custom(r)),
        Payload::End(_) => Ok(Section::End),
        Payload::DataCountSection { .. } => Ok(Section::DataCount),
        Payload::DataSection(_) => Ok(Section::Data),
        Payload::UnknownSection { .. } => Ok(Section::Unknown),
        other => Err(other),
    }
}

/// Tells the component-model sections apart, one arm per kind; `Payload` is
/// `#[non_exhaustive]`, so kinds a later `wasmparser` adds fall to `Other`.
///
/// Nothing is stated of the result: the argument is an opaque `wasmparser` value.
#[verifier::external_body]
pub(crate) fn classify_component_section<'a>(p: Payload<'a>) -> Section<'a> {
    match p {
        Payload::ModuleSection { .. } => Section::Component,
        Payload::InstanceSection(_) => Section::Component,
        Payload::CoreTypeSection(_) => Section::Component,
        Payload::ComponentSection { .. } => Section::Component,
        Payload::ComponentInstanceSection(_) => Section::Component,
        Payload::ComponentAliasSection(_) => Section::Component,
        Payload::ComponentTypeSection(_) => Section::Component,
        Payload::ComponentCanonicalSection(_) => Section::Component,
        Payload::ComponentStartSection { .. } => Section::Component,
        Payload::ComponentImportSection(_) => Section::Component,
        Payload::ComponentExportSection(_) => Section::Component,
        _ => Section::Other,
    }
}

/// `CustomSectionReader::name`: the name of a custom section.
///
/// Nothing is stated of the result: the argument is an opaque `wasmparser` value.
#[verifier::external_body]
pub(crate) fn custom_section_name(r: &CustomSectionReader) -> String {
    r.name().to_string()
}

/// `CustomSectionReader::data`: the payload of a custom section after its name.
///
/// Nothing is stated of the result: the argument is an opaque `wasmparser` value.
#[verifier::external_body]
pub(crate) fn custom_section_data(r: &CustomSectionReader) -> Vec<u8> {
    r.data().to_vec()
}

/// Converts a `wasmparser` value type.
///
/// Nothing is stated of the result: the argument is an opaque `wasmparser` value.
#[verifier::external_body]
pub(crate) fn val_kind(t: ValType) -> ValKind {
    match t {
        ValType::I32 => ValKind::I32,
        ValType::I64 => ValKind::I64,
        ValType::F32 => ValKind::F32,
        ValType::F64 => ValKind::F64,
        ValType::V128 => ValKind::V128,
        ValType::Ref(_) => ValKind::Ref,
    }
}


/// The type of an import.
#[derive(Debug, Clone, Copy, PartialEq, Eq, Structural)]
pub enum ImportType {
    /// A function with the signature at this type index.
    Func(u32),
    Global,
    /// A table, memory, tag or exactly typed function.
    Other,
}

/// The kind of an element segment.
pub enum ElementMode<'a> {
    /// An active segment for the table at this index (table 0 where none is written), placed
    /// at the value of its offset expression.
    Active { table_index: Option<u32>, offset: ConstExpr<'a> },
    Passive,
    Declared,
}

/// The heap type of a reference type, as far as the translator tells them apart.
#[derive(Debug, Clone, Copy, PartialEq, Eq, Structural)]
pub enum HeapKind {
    /// The abstract function type, shared or not.
    AbstractFunc { shared: bool },
    /// Another abstract heap type.
    AbstractOther,
    /// A concrete, user-defined type.
    Concrete,
    /// An exact, user-defined type.
    Exact,
}

/// A reference type: whether it is nullable, and its heap type.
#[derive(Debug, Clone, Copy, PartialEq, Eq, Structural)]
pub struct RefKind {
    pub nullable: bool,
    pub heap: HeapKind,
}

/// Whether a reference type is `funcref`: the nullable reference to the unshared abstract
/// function type.
pub open spec fn is_funcref(k: RefKind) -> bool {
    k.nullable && k.heap == (HeapKind::AbstractFunc { shared: false })
}

/// Whether a reference type is `funcref`.
pub fn is_funcref_kind(k: RefKind) -> (r: bool)
    ensures
        r == is_funcref(k),
{
    k.nullable && match k.heap {
        HeapKind::AbstractFunc { shared } => !shared,
        _ => false,
    }
}

/// The items of an element segment.
pub enum ElementEntries<'a> {
    /// Function indices.
    Functions(SectionLimited<'a, u32>),
    /// Constant expressions, and their reference type.
    Expressions(RefKind, SectionLimited<'a, ConstExpr<'a>>),
}

/// Tells the forms of a `wasmparser` heap type apart.
///
/// Nothing is stated of the result: the argument is an opaque `wasmparser` value.
#[verifier::external_body]
pub(crate) fn heap_kind(h: HeapType) -> HeapKind {
    match h {
        HeapType::Abstract { shared, ty: AbstractHeapType::Func } => HeapKind::AbstractFunc { shared },
        HeapType::Abstract { .. } => HeapKind::AbstractOther,
        HeapType::Concrete(_) => HeapKind::Concrete,
        HeapType::Exact(_) => HeapKind::Exact,
    }
}

/// `RefType::is_nullable` and `RefType::heap_type`, the latter told apart by [`heap_kind`].
///
/// Nothing is stated of the result: the argument is an opaque `wasmparser` value.
#[verifier::external_body]
pub(crate) fn ref_kind(r: RefType) -> RefKind {
    RefKind { nullable: r.is_nullable(), heap: heap_kind(r.heap_type()) }
}

/// `SectionLimited::into_iter` on the type section.
///
/// Nothing is stated of the result: the argument is an opaque `wasmparser` value.
#[verifier::external_body]
pub(crate) fn rec_groups<'a>(r: SectionLimited<'a, RecGroup>) -> SectionLimitedIntoIter<'a, RecGroup> {
    r.into_iter()
}

/// The next recursion group of the type section.
///
/// Nothing is stated of the result: the argument is an opaque `wasmparser` value.
#[verifier::external_body]
pub(crate) fn next_rec_group<'a>(it: &mut SectionLimitedIntoIter<'a, RecGroup>) -> Option<
    Result<RecGroup, BinaryReaderError>,
> {
    it.next()
}

/// The number of types in a recursion group (`RecGroup::types().len()`).
///
/// Nothing is stated of the result: the argument is an opaque `wasmparser` value.
#[verifier::external_body]
pub(crate) fn rec_group_len(g: &RecGroup) -> usize {
    g.types().len()
}

/// The `i`-th type of a recursion group, when it is a function type.
///
/// Nothing is stated of the result: the argument is an opaque `wasmparser` value.
#[verifier::external_body]
pub(crate) fn rec_group_func(g: &RecGroup, i: usize) -> Option<FuncType> {
    match g.types().nth(i).map(|t| &t.composite_type.inner) {
        Some(CompositeInnerType::Func(f)) => Some(f.clone()),
        _ => None,
    }
}

/// The parameter and result types of a function type (`FuncType::params`, `FuncType::results`).
///
/// Nothing is stated of the result: the argument is an opaque `wasmparser` value.
#[verifier::external_body]
pub(crate) fn func_type_parts(f: &FuncType) -> (Vec<ValType>, Vec<ValType>) {
    (f.params().to_vec(), f.results().to_vec())
}

/// `SectionLimited::into_iter` on the import section.
///
/// Nothing is stated of the result: the argument is an opaque `wasmparser` value.
#[verifier::external_body]
pub(crate) fn import_groups<'a>(r: SectionLimited<'a, Imports<'a>>) -> SectionLimitedIntoIter<
    'a,
    Imports<'a>,
> {
    r.into_iter()
}

/// The next group of imports.
///
/// Nothing is stated of the result: the argument is an opaque `wasmparser` value.
#[verifier::external_body]
pub(crate) fn next_import_group<'a>(it: &mut SectionLimitedIntoIter<'a, Imports<'a>>) -> Option<
    Result<Imports<'a>, BinaryReaderError>,
> {
    it.next()
}

/// `Imports::into_iter`: the imports of one group.
///
/// Nothing is stated of the result: the argument is an opaque `wasmparser` value.
#[verifier::external_body]
pub(crate) fn imports_of_group<'a>(g: Imports<'a>) -> ImportsIter<'a> {
    g.into_iter()
}

/// The next import of a group, without its offset.
///
/// Nothing is stated of the result: the argument is an opaque `wasmparser` value.
#[verifier::external_body]
pub(crate) fn next_import<'a>(it: &mut ImportsIter<'a>) -> Option<Result<Import<'a>, BinaryReaderError>> {
    match it.next() {
        Some(Ok((_, import))) => Some(Ok(import)),
        Some(Err(e)) => Some(Err(e)),
        None => None,
    }
}

/// The module and item names of an import.
///
/// Nothing is stated of the result: the argument is an opaque `wasmparser` value.
#[verifier::external_body]
pub(crate) fn import_names(i: &Import) -> (String, String) {
    (i.module.to_string(), i.name.to_string())
}

/// Tells the types of an import apart.
///
/// Nothing is stated of the result: the argument is an opaque `wasmparser` value.
#[verifier::external_body]
pub(crate) fn import_type(i: &Import) -> ImportType {
    match i.ty {
        TypeRef::Func(index) => ImportType::Func(index),
        TypeRef::Global(_) => ImportType::Global,
        _ => ImportType::Other,
    }
}

/// `SectionLimited::into_iter` on the function section.
///
/// Nothing is stated of the result: the argument is an opaque `wasmparser` value.
#[verifier::external_body]
pub(crate) fn function_types<'a>(r: SectionLimited<'a, u32>) -> SectionLimitedIntoIter<'a, u32> {
    r.into_iter()
}

/// The next index of a section of indices.
///
/// Nothing is stated of the result: the argument is an opaque `wasmparser` value.
#[verifier::external_body]
pub(crate) fn next_index<'a>(it: &mut SectionLimitedIntoIter<'a, u32>) -> Option<
    Result<u32, BinaryReaderError>,
> {
    it.next()
}

/// `SectionLimited::into_iter` on the table section.
///
/// Nothing is stated of the result: the argument is an opaque `wasmparser` value.
#[verifier::external_body]
pub(crate) fn tables<'a>(r: SectionLimited<'a, Table<'a>>) -> SectionLimitedIntoIter<'a, Table<'a>> {
    r.into_iter()
}

/// The next table.
///
/// Nothing is stated of the result: the argument is an opaque `wasmparser` value.
#[verifier::external_body]
pub(crate) fn next_table<'a>(it: &mut SectionLimitedIntoIter<'a, Table<'a>>) -> Option<
    Result<Table<'a>, BinaryReaderError>,
> {
    it.next()
}

/// The type of a table: 64-bit indices, shared, element reference type, initial size and
/// maximum size.
///
/// Nothing is stated of the result: the argument is an opaque `wasmparser` value.
#[verifier::external_body]
pub(crate) fn table_type(t: &Table) -> (bool, bool, RefKind, u64, Option<u64>) {
    let ty = t.ty;
    (ty.table64, ty.shared, ref_kind(ty.element_type), ty.initial, ty.maximum)
}

/// `SectionLimited::into_iter` on the memory section.
///
/// Nothing is stated of the result: the argument is an opaque `wasmparser` value.
#[verifier::external_body]
pub(crate) fn memories<'a>(r: SectionLimited<'a, MemoryType>) -> SectionLimitedIntoIter<'a, MemoryType> {
    r.into_iter()
}

/// The next memory.
///
/// Nothing is stated of the result: the argument is an opaque `wasmparser` value.
#[verifier::external_body]
pub(crate) fn next_memory<'a>(it: &mut SectionLimitedIntoIter<'a, MemoryType>) -> Option<
    Result<MemoryType, BinaryReaderError>,
> {
    it.next()
}

/// The type of a memory: 64-bit addresses, shared, initial pages and maximum pages.
///
/// Nothing is stated of the result: the argument is an opaque `wasmparser` value.
#[verifier::external_body]
pub(crate) fn memory_type(m: &MemoryType) -> (bool, bool, u64, Option<u64>) {
    (m.memory64, m.shared, m.initial, m.maximum)
}

/// `SectionLimited::into_iter` on the global section.
///
/// Nothing is stated of the result: the argument is an opaque `wasmparser` value.
#[verifier::external_body]
pub(crate) fn globals<'a>(r: SectionLimited<'a, Global<'a>>) -> SectionLimitedIntoIter<'a, Global<'a>> {
    r.into_iter()
}

/// The value type of the next global.
///
/// Nothing is stated of the result: the argument is an opaque `wasmparser` value.
#[verifier::external_body]
pub(crate) fn next_global_type<'a>(it: &mut SectionLimitedIntoIter<'a, Global<'a>>) -> Option<
    Result<ValType, BinaryReaderError>,
> {
    match it.next() {
        Some(Ok(g)) => Some(Ok(g.ty.content_type)),
        Some(Err(e)) => Some(Err(e)),
        None => None,
    }
}

/// `SectionLimited::into_iter` on the export section.
///
/// Nothing is stated of the result: the argument is an opaque `wasmparser` value.
#[verifier::external_body]
pub(crate) fn exports<'a>(r: SectionLimited<'a, Export<'a>>) -> SectionLimitedIntoIter<'a, Export<'a>> {
    r.into_iter()
}

/// The next export: its name, whether it exports a function, and the exported index.
///
/// Nothing is stated of the result: the argument is an opaque `wasmparser` value.
#[verifier::external_body]
pub(crate) fn next_export<'a>(it: &mut SectionLimitedIntoIter<'a, Export<'a>>) -> Option<
    Result<(String, bool, u32), BinaryReaderError>,
> {
    match it.next() {
        Some(Ok(e)) => Some(Ok((e.name.to_string(), e.kind == ExternalKind::Func, e.index))),
        Some(Err(e)) => Some(Err(e)),
        None => None,
    }
}

/// `SectionLimited::into_iter` on the element section.
///
/// Nothing is stated of the result: the argument is an opaque `wasmparser` value.
#[verifier::external_body]
pub(crate) fn elements<'a>(r: SectionLimited<'a, Element<'a>>) -> SectionLimitedIntoIter<'a, Element<'a>> {
    r.into_iter()
}

/// The next element segment.
///
/// Nothing is stated of the result: the argument is an opaque `wasmparser` value.
#[verifier::external_body]
pub(crate) fn next_element<'a>(it: &mut SectionLimitedIntoIter<'a, Element<'a>>) -> Option<
    Result<Element<'a>, BinaryReaderError>,
> {
    it.next()
}

/// Tells the kinds of an element segment apart.
///
/// Nothing is stated of the result: the argument is an opaque `wasmparser` value.
#[verifier::external_body]
pub(crate) fn element_mode<'a>(e: &Element<'a>) -> ElementMode<'a> {
    match &e.kind {
        ElementKind::Active { table_index, offset_expr } => ElementMode::Active {
            table_index: *table_index,
            offset: offset_expr.clone(),
        },
        ElementKind::Passive => ElementMode::Passive,
        ElementKind::Declared => ElementMode::Declared,
    }
}

/// Tells the item forms of an element segment apart.
///
/// Nothing is stated of the result: the argument is an opaque `wasmparser` value.
#[verifier::external_body]
pub(crate) fn element_entries<'a>(e: Element<'a>) -> ElementEntries<'a> {
    match e.items {
        ElementItems::Functions(f) => ElementEntries::Functions(f),
        ElementItems::Expressions(t, x) => ElementEntries::Expressions(ref_kind(t), x),
    }
}

/// `SectionLimited::into_iter` on element expressions.
///
/// Nothing is stated of the result: the argument is an opaque `wasmparser` value.
#[verifier::external_body]
pub(crate) fn element_exprs<'a>(r: SectionLimited<'a, ConstExpr<'a>>) -> SectionLimitedIntoIter<
    'a,
    ConstExpr<'a>,
> {
    r.into_iter()
}

/// The next element expression.
///
/// Nothing is stated of the result: the argument is an opaque `wasmparser` value.
#[verifier::external_body]
pub(crate) fn next_element_expr<'a>(it: &mut SectionLimitedIntoIter<'a, ConstExpr<'a>>) -> Option<
    Result<ConstExpr<'a>, BinaryReaderError>,
> {
    it.next()
}

/// `ConstExpr::get_operators_reader`.
///
/// Nothing is stated of the result: the argument is an opaque `wasmparser` value.
#[verifier::external_body]
pub(crate) fn const_expr_operators<'a>(e: &ConstExpr<'a>) -> OperatorsReader<'a> {
    e.get_operators_reader()
}

/// `FunctionBody::get_locals_reader`.
///
/// Nothing is stated of the result: the argument is an opaque `wasmparser` value.
#[verifier::external_body]
pub(crate) fn body_locals<'a>(b: &FunctionBody<'a>) -> Result<LocalsReader<'a>, BinaryReaderError> {
    b.get_locals_reader()
}

/// `LocalsReader::get_count`: the number of local declarations.
///
/// Nothing is stated of the result: the argument is an opaque `wasmparser` value.
#[verifier::external_body]
pub(crate) fn locals_count(r: &LocalsReader) -> u32 {
    r.get_count()
}

/// `LocalsReader::read`: the next run of locals, a count and a type.
///
/// Nothing is stated of the result: the argument is an opaque `wasmparser` value.
#[verifier::external_body]
pub(crate) fn read_locals(r: &mut LocalsReader) -> Result<(u32, ValType), BinaryReaderError> {
    r.read()
}

/// `FunctionBody::get_operators_reader`.
///
/// Nothing is stated of the result: the argument is an opaque `wasmparser` value.
#[verifier::external_body]
pub(crate) fn body_operators<'a>(b: &FunctionBody<'a>) -> Result<OperatorsReader<'a>, BinaryReaderError> {
    b.get_operators_reader()
}

/// `OperatorsReader::eof`.
///
/// Nothing is stated of the result: the argument is an opaque `wasmparser` value.
#[verifier::external_body]
pub(crate) fn operators_done(r: &OperatorsReader) -> bool {
    r.eof()
}

/// `OperatorsReader::read`: the next operator.
///
/// Nothing is stated of the result: the argument is an opaque `wasmparser` value.
#[verifier::external_body]
pub(crate) fn read_operator<'a>(r: &mut OperatorsReader<'a>) -> Result<Operator<'a>, BinaryReaderError> {
    r.read()
}

/// The `Debug` name of an operator, as the translator reports unsupported ones.
///
/// Nothing is stated of the result: the argument is an opaque `wasmparser` value.
#[verifier::external_body]
pub(crate) fn operator_name(op: &Operator) -> String {
    format!("{:?}", op)
}

/// Tells apart the operators without a block type or branch table that the translator reads.
///
/// Nothing is stated of the result: the argument is an opaque `wasmparser` value.
#[verifier::external_body]
pub(crate) fn control_operator(op: &Operator) -> Option<WasmOp> {
    match *op {
        Operator::Unreachable => Some(WasmOp::Unreachable),
        Operator::Nop => Some(WasmOp::Nop),
        Operator::Else => Some(WasmOp::Else),
        Operator::End => Some(WasmOp::End),
        Operator::Br { relative_depth } => Some(WasmOp::Br(relative_depth)),
        Operator::BrIf { relative_depth } => Some(WasmOp::BrIf(relative_depth)),
        Operator::Return => Some(WasmOp::Return),
        Operator::Call { function_index } => Some(WasmOp::Call(function_index)),
        Operator::Drop => Some(WasmOp::Drop),
        Operator::LocalGet { local_index } => Some(WasmOp::LocalGet(local_index)),
        Operator::LocalSet { local_index } => Some(WasmOp::LocalSet(local_index)),
        Operator::LocalTee { local_index } => Some(WasmOp::LocalTee(local_index)),
        _ => None,
    }
}

/// The kind of a structured operator.
#[derive(Debug, Clone, Copy, PartialEq, Eq, Structural)]
pub enum BlockOp {
    Block,
    Loop,
    If,
}

/// Tells apart `block`, `loop` and `if`, with their block type.
///
/// Nothing is stated of the result: the argument is an opaque `wasmparser` value.
#[verifier::external_body]
pub(crate) fn block_operator(op: &Operator) -> Option<(BlockOp, BlockType)> {
    match *op {
        Operator::Block { blockty } => Some((BlockOp::Block, blockty)),
        Operator::Loop { blockty } => Some((BlockOp::Loop, blockty)),
        Operator::If { blockty } => Some((BlockOp::If, blockty)),
        _ => None,
    }
}

/// Tells the forms of a block type apart; the value type of the one-result form stays as it is.
///
/// Nothing is stated of the result: the argument is an opaque `wasmparser` value.
#[verifier::external_body]
pub(crate) fn block_type_form(t: BlockType) -> (Option<ValType>, Option<u32>) {
    match t {
        BlockType::Empty => (None, None),
        BlockType::Type(v) => (Some(v), None),
        BlockType::FuncType(i) => (None, Some(i)),
    }
}

/// The branch table of a `br_table`.
///
/// Nothing is stated of the result: the argument is an opaque `wasmparser` value.
#[verifier::external_body]
pub(crate) fn br_table_operator<'a>(op: &Operator<'a>) -> Option<BrTable<'a>> {
    match op {
        Operator::BrTable { targets } => Some(targets.clone()),
        _ => None,
    }
}

/// `BrTable::default`: the depth for an out-of-range index.
///
/// Nothing is stated of the result: the argument is an opaque `wasmparser` value.
#[verifier::external_body]
pub(crate) fn br_table_default(t: &BrTable) -> u32 {
    t.default()
}

/// `BrTable::targets`: the depths of the cases.
///
/// Nothing is stated of the result: the argument is an opaque `wasmparser` value.
#[verifier::external_body]
pub(crate) fn br_table_targets<'a>(t: &'a BrTable<'a>) -> BrTableTargets<'a> {
    t.targets()
}

/// The next case depth of a branch table.
///
/// Nothing is stated of the result: the argument is an opaque `wasmparser` value.
#[verifier::external_body]
pub(crate) fn next_br_target(it: &mut BrTableTargets) -> Option<Result<u32, BinaryReaderError>> {
    it.next()
}

/// The constant of `i32.const` or `i64.const`, and `ref.func`'s function index.
///
/// Nothing is stated of the result: the argument is an opaque `wasmparser` value.
#[verifier::external_body]
pub(crate) fn const_operator(op: &Operator) -> Option<WasmOp> {
    match *op {
        Operator::I32Const { value } => Some(WasmOp::I32Const(value)),
        Operator::I64Const { value } => Some(WasmOp::I64Const(value)),
        _ => None,
    }
}

/// The function index of `ref.func`.
///
/// Nothing is stated of the result: the argument is an opaque `wasmparser` value.
#[verifier::external_body]
pub(crate) fn ref_func_operator(op: &Operator) -> Option<u32> {
    match *op {
        Operator::RefFunc { function_index } => Some(function_index),
        _ => None,
    }
}

/// Whether an operator is `call_indirect`.
///
/// Nothing is stated of the result: the argument is an opaque `wasmparser` value.
#[verifier::external_body]
pub(crate) fn is_call_indirect(op: &Operator) -> bool {
    matches!(op, Operator::CallIndirect { .. })
}

/// Tells the 32-bit comparisons apart.
///
/// Nothing is stated of the result: the argument is an opaque `wasmparser` value.
#[verifier::external_body]
pub(crate) fn compare_operator_32(op: &Operator) -> Option<CmpKind> {
    match *op {
        Operator::I32Eq => Some(CmpKind::Eq),
        Operator::I32Ne => Some(CmpKind::Ne),
        Operator::I32LtS => Some(CmpKind::LtS),
        Operator::I32LtU => Some(CmpKind::LtU),
        Operator::I32GtS => Some(CmpKind::GtS),
        Operator::I32GtU => Some(CmpKind::GtU),
        Operator::I32LeS => Some(CmpKind::LeS),
        Operator::I32LeU => Some(CmpKind::LeU),
        Operator::I32GeS => Some(CmpKind::GeS),
        Operator::I32GeU => Some(CmpKind::GeU),
        _ => None,
    }
}

/// Tells the 64-bit comparisons apart.
///
/// Nothing is stated of the result: the argument is an opaque `wasmparser` value.
#[verifier::external_body]
pub(crate) fn compare_operator_64(op: &Operator) -> Option<CmpKind> {
    match *op {
        Operator::I64Eq => Some(CmpKind::Eq),
        Operator::I64Ne => Some(CmpKind::Ne),
        Operator::I64LtS => Some(CmpKind::LtS),
        Operator::I64LtU => Some(CmpKind::LtU),
        Operator::I64GtS => Some(CmpKind::GtS),
        Operator::I64GtU => Some(CmpKind::GtU),
        Operator::I64LeS => Some(CmpKind::LeS),
        Operator::I64LeU => Some(CmpKind::LeU),
        Operator::I64GeS => Some(CmpKind::GeS),
        Operator::I64GeU => Some(CmpKind::GeU),
        _ => None,
    }
}

/// Tells the 32-bit arithmetic operators apart.
///
/// Nothing is stated of the result: the argument is an opaque `wasmparser` value.
#[verifier::external_body]
pub(crate) fn arith_operator_32(op: &Operator) -> Option<ArithKind> {
    match *op {
        Operator::I32Add => Some(ArithKind::Add),
        Operator::I32Sub => Some(ArithKind::Sub),
        Operator::I32Mul => Some(ArithKind::Mul),
        Operator::I32DivS => Some(ArithKind::DivS),
        Operator::I32DivU => Some(ArithKind::DivU),
        Operator::I32RemS => Some(ArithKind::RemS),
        Operator::I32RemU => Some(ArithKind::RemU),
        _ => None,
    }
}

/// Tells the 32-bit bitwise operators apart.
///
/// Nothing is stated of the result: the argument is an opaque `wasmparser` value.
#[verifier::external_body]
pub(crate) fn bitwise_operator_32(op: &Operator) -> Option<ArithKind> {
    match *op {
        Operator::I32And => Some(ArithKind::And),
        Operator::I32Or => Some(ArithKind::Or),
        Operator::I32Xor => Some(ArithKind::Xor),
        Operator::I32Shl => Some(ArithKind::Shl),
        Operator::I32ShrS => Some(ArithKind::ShrS),
        Operator::I32ShrU => Some(ArithKind::ShrU),
        Operator::I32Rotl => Some(ArithKind::Rotl),
        Operator::I32Rotr => Some(ArithKind::Rotr),
        _ => None,
    }
}

/// Tells the 64-bit arithmetic operators apart.
///
/// Nothing is stated of the result: the argument is an opaque `wasmparser` value.
#[verifier::external_body]
pub(crate) fn arith_operator_64(op: &Operator) -> Option<ArithKind> {
    match *op {
        Operator::I64Add => Some(ArithKind::Add),
        Operator::I64Sub => Some(ArithKind::Sub),
        Operator::I64Mul => Some(ArithKind::Mul),
        Operator::I64DivS => Some(ArithKind::DivS),
        Operator::I64DivU => Some(ArithKind::DivU),
        Operator::I64RemS => Some(ArithKind::RemS),
        Operator::I64RemU => Some(ArithKind::RemU),
        _ => None,
    }
}

/// Tells the 64-bit bitwise operators apart.
///
/// Nothing is stated of the result: the argument is an opaque `wasmparser` value.
#[verifier::external_body]
pub(crate) fn bitwise_operator_64(op: &Operator) -> Option<ArithKind> {
    match *op {
        Operator::I64And => Some(ArithKind::And),
        Operator::I64Or => Some(ArithKind::Or),
        Operator::I64Xor => Some(ArithKind::Xor),
        Operator::I64Shl => Some(ArithKind::Shl),
        Operator::I64ShrS => Some(ArithKind::ShrS),
        Operator::I64ShrU => Some(ArithKind::ShrU),
        Operator::I64Rotl => Some(ArithKind::Rotl),
        Operator::I64Rotr => Some(ArithKind::Rotr),
        _ => None,
    }
}

/// Tells `i32.eqz` (`false`) and `i64.eqz` (`true`) apart.
///
/// Nothing is stated of the result: the argument is an opaque `wasmparser` value.
#[verifier::external_body]
pub(crate) fn eqz_operator(op: &Operator) -> Option<bool> {
    match *op {
        Operator::I32Eqz => Some(false),
        Operator::I64Eqz => Some(true),
        _ => None,
    }
}

/// Whether an operator is `ref.null`, and then the form of its heap type.
///
/// Nothing is stated of the result: the argument is an opaque `wasmparser` value.
#[verifier::external_body]
pub(crate) fn ref_null_operator(op: &Operator) -> Option<HeapKind> {
    match *op {
        Operator::RefNull { hty } => Some(heap_kind(hty)),
        _ => None,
    }
}

} // verus!
