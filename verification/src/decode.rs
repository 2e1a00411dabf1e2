//! Reading a module's sections into a [`WasmModule`].
//!
//! The payloads come from `wasmparser` one by one; this module checks what the translator
//! rejects at the module level and keeps what it reads.

use vstd::prelude::*;

use crate::control::is_integer;
use crate::errors::TranslateError;
use crate::module::{
    ArithKind, BlockKind, CodeBody, ElementSegment, ExprItem, FuncSig, FunctionExport,
    FunctionImport, MemoryDesc, SegmentItems, SegmentMode, TableDesc, Unsupported, ValKind,
    WasmModule, WasmOp,
};
use crate::elements::{
    accepted_segments, check_element_segment, collected_functions, keep_segment_functions,
    segment_error,
};
use crate::wasm::{
    arith_operator_32, arith_operator_64, bitwise_operator_32, bitwise_operator_64,
    block_operator, block_type_form, body_locals, body_operators, br_table_default,
    br_table_operator, br_table_targets, compare_operator_32, compare_operator_64,
    const_expr_operators, const_operator, control_operator, element_entries, element_exprs,
    classify_component_section, classify_code_section, classify_module_section, custom_section_data, custom_section_name, element_mode, elements, eqz_operator,
    error_message, exports, func_type_parts, function_types, globals, import_groups,
    import_names, import_type, imports_of_group, is_call_indirect, memories, memory_type,
    new_parser, next_export, next_global_type, next_import, next_import_group, next_memory,
    next_rec_group, next_table, parse_next, rec_group_func, rec_group_len, rec_groups,
    table_type, tables, is_funcref_kind, HeapKind, ImportType, Section,
    locals_count, next_br_target, next_element, next_element_expr, next_index, operator_name,
    operators_done, read_locals, read_operator, ref_func_operator, ref_null_operator, val_kind,
    BlockOp, ElementEntries, ElementMode,
};

use vstd::string::StringSliceAdditionalSpecFns;
use wasmparser::{
    BinaryReaderError, BlockType, ConstExpr, Element, Export, FunctionBody, Global, Imports,
    MemoryType, Operator, RecGroup, SectionLimited, Table, ValType,
};

verus! {

/// The library's error for a `wasmparser` error.
fn decode_error(e: &BinaryReaderError) -> (r: TranslateError)
    ensures
        r is Decode,
{
    TranslateError::Decode { message: error_message(e) }
}

/// Converts value types.
fn val_kinds(types: &Vec<ValType>) -> (r: Vec<ValKind>)
    ensures
        r@.len() == types@.len(),
{
    let mut out: Vec<ValKind> = Vec::new();
    let mut i: usize = 0;
    while i < types.len()
        invariant
            i <= types@.len(),
            out@.len() == i,
        decreases types@.len() - i,
    {
        out.push(val_kind(types[i]));
        i = i + 1;
    }
    out
}

/// Whether `p` is a prefix of `s`.
pub open spec fn is_prefix_of(p: Seq<u8>, s: Seq<u8>) -> bool {
    p.len() <= s.len() && s.subrange(0, p.len() as int) == p
}

/// Whether the bytes of `s` start with the bytes of `prefix`.
pub fn starts_with(s: &str, prefix: &str) -> (r: bool)
    ensures
        r == is_prefix_of(prefix.spec_bytes(), s.spec_bytes()),
{
    let a = s.as_bytes();
    let b = prefix.as_bytes();
    if b.len() > a.len() {
        return false;
    }
    let mut i: usize = 0;
    while i < b.len()
        invariant
            i <= b@.len() <= a@.len(),
            a@ == s.spec_bytes(),
            b@ == prefix.spec_bytes(),
            forall|j: int| 0 <= j < i ==> a@[j] == b@[j],
        decreases b@.len() - i,
    {
        if a[i] != b[i] {
            assert(a@.subrange(0, b@.len() as int)[i as int] != b@[i as int]);
            return false;
        }
        i = i + 1;
    }
    assert(a@.subrange(0, b@.len() as int) =~= b@);
    true
}

/// Whether one of `prefixes` is a prefix of `s`.
pub open spec fn has_any_prefix(s: Seq<u8>, prefixes: Seq<&str>) -> bool {
    exists|i: int| 0 <= i < prefixes.len() && is_prefix_of((#[trigger] prefixes[i]).spec_bytes(), s)
}

/// Whether `s` starts with one of `prefixes`.
fn starts_with_any(s: &str, prefixes: &[&str]) -> (r: bool)
    ensures
        r == has_any_prefix(s.spec_bytes(), prefixes@),
{
    let mut i: usize = 0;
    while i < prefixes.len()
        invariant
            i <= prefixes@.len(),
            forall|j: int| 0 <= j < i ==> !is_prefix_of((#[trigger] prefixes@[j]).spec_bytes(), s.spec_bytes()),
        decreases prefixes@.len() - i,
    {
        if starts_with(s, prefixes[i]) {
            return true;
        }
        i = i + 1;
    }
    false
}

/// The `Debug` names of the floating-point operators start with these.
pub open spec fn float_prefixes() -> Seq<&'static str> {
    seq!["F32", "F64"]
}

/// The `Debug` names of the SIMD operators start with these.
pub open spec fn simd_prefixes() -> Seq<&'static str> {
    seq!["I8x16", "I16x8", "I32x4", "I64x2", "F32x4", "F64x2", "V128"]
}

/// The `Debug` names of the operators whose NeoVM form needs a runtime helper routine start
/// with these: memory, data, globals, tables, elements, `select`, indirect calls, bit
/// counting, conversions and references.
pub open spec fn helper_prefixes() -> Seq<&'static str> {
    seq![
        "I32Load", "I64Load", "I32Store", "I64Store", "Memory", "Data", "Global", "Table", "Elem",
        "Select", "TypedSelect", "CallIndirect", "I32Clz", "I32Ctz", "I32Popcnt", "I32Wrap", "Ref",
        "I64Clz", "I64Ctz", "I64Popcnt", "I64Extend", "I32Extend",
    ]
}

/// Why the translator rejects the operator with this `Debug` name: floating point and SIMD
/// operators are named as the translator reports them; the operators whose NeoVM form needs
/// code this library does not emit are told apart from any other.
pub fn classify_unsupported(name: &str) -> (r: Unsupported)
    ensures
        r == (if has_any_prefix(name.spec_bytes(), float_prefixes()) {
            Unsupported::Float
        } else if has_any_prefix(name.spec_bytes(), simd_prefixes()) {
            Unsupported::Simd
        } else if has_any_prefix(name.spec_bytes(), helper_prefixes()) {
            Unsupported::NotEmitted
        } else {
            Unsupported::Other
        }),
{
    let float: [&str; 2] = ["F32", "F64"];
    assert(float@ =~= float_prefixes());
    if starts_with_any(name, &float) {
        return Unsupported::Float;
    }
    let simd: [&str; 7] = ["I8x16", "I16x8", "I32x4", "I64x2", "F32x4", "F64x2", "V128"];
    assert(simd@ =~= simd_prefixes());
    if starts_with_any(name, &simd) {
        return Unsupported::Simd;
    }
    let helpers: [&str; 22] = [
        "I32Load",
        "I64Load",
        "I32Store",
        "I64Store",
        "Memory",
        "Data",
        "Global",
        "Table",
        "Elem",
        "Select",
        "TypedSelect",
        "CallIndirect",
        "I32Clz",
        "I32Ctz",
        "I32Popcnt",
        "I32Wrap",
        "Ref",
        "I64Clz",
        "I64Ctz",
        "I64Popcnt",
        "I64Extend",
        "I32Extend",
    ];
    assert(helpers@ =~= helper_prefixes());
    if starts_with_any(name, &helpers) {
        return Unsupported::NotEmitted;
    }
    Unsupported::Other
}

/// The block kind of a block type.
fn block_kind(t: BlockType) -> BlockKind {
    match block_type_form(t) {
        (Some(v), _) => BlockKind::Value(val_kind(v)),
        (None, Some(index)) => BlockKind::FuncType(index),
        (None, None) => BlockKind::Empty,
    }
}

/// Reads one operator into the library's form.
fn decode_operator(op: &Operator) -> (r: Result<WasmOp, TranslateError>) {
    if let Some(o) = control_operator(op) {
        return Ok(o);
    }
    if let Some((kind, blockty)) = block_operator(op) {
        let bk = block_kind(blockty);
        return Ok(
            match kind {
                BlockOp::Block => WasmOp::Block(bk),
                BlockOp::Loop => WasmOp::Loop(bk),
                BlockOp::If => WasmOp::If(bk),
            },
        );
    }
    if let Some(table) = br_table_operator(op) {
        let default = br_table_default(&table);
        let mut targets: Vec<u32> = Vec::new();
        let mut it = br_table_targets(&table);
        let mut fuel: usize = usize::MAX;
        while fuel > 0
            decreases fuel,
        {
            fuel = fuel - 1;
            match next_br_target(&mut it) {
                Some(Ok(depth)) => targets.push(depth),
                Some(Err(e)) => {
                    return Err(decode_error(&e));
                },
                None => {
                    break;
                },
            }
        }
        return Ok(WasmOp::BrTable { targets, default });
    }
    if let Some(o) = const_operator(op) {
        return Ok(o);
    }
    if let Some(wide) = eqz_operator(op) {
        return Ok(WasmOp::Eqz { wide });
    }
    if let Some(kind) = compare_operator_32(op) {
        return Ok(WasmOp::Compare { wide: false, kind });
    }
    if let Some(kind) = compare_operator_64(op) {
        return Ok(WasmOp::Compare { wide: true, kind });
    }
    if let Some(kind) = arith_operator_32(op) {
        return Ok(WasmOp::Arith { wide: false, kind });
    }
    if let Some(kind) = bitwise_operator_32(op) {
        return Ok(WasmOp::Arith { wide: false, kind });
    }
    if let Some(kind) = arith_operator_64(op) {
        return Ok(WasmOp::Arith { wide: true, kind });
    }
    if let Some(kind) = bitwise_operator_64(op) {
        return Ok(WasmOp::Arith { wide: true, kind });
    }
    let name = operator_name(op);
    let class = classify_unsupported(name.as_str());
    Ok(WasmOp::Unsupported { class, name })
}

/// Reads a function body: its locals, its operators, whether it calls indirectly, and the
/// functions its `ref.func` operators reference.
fn decode_body(body: &FunctionBody, ref_functions: &mut Vec<u32>) -> (r: Result<
    CodeBody,
    TranslateError,
>) {
    let mut locals_reader = match body_locals(body) {
        Ok(r) => r,
        Err(e) => {
            return Err(decode_error(&e));
        },
    };
    let count = locals_count(&locals_reader);
    let mut locals: Vec<(u32, ValKind)> = Vec::new();
    let mut i: u32 = 0;
    while i < count
        decreases count - i,
    {
        match read_locals(&mut locals_reader) {
            Ok((n, t)) => locals.push((n, val_kind(t))),
            Err(e) => {
                return Err(decode_error(&e));
            },
        }
        i = i + 1;
    }
    let mut reader = match body_operators(body) {
        Ok(r) => r,
        Err(e) => {
            return Err(decode_error(&e));
        },
    };
    let mut ops: Vec<WasmOp> = Vec::new();
    let mut calls_indirect = false;
    let mut fuel: usize = usize::MAX;
    while fuel > 0 && !operators_done(&reader)
        decreases fuel,
    {
        fuel = fuel - 1;
        let op = match read_operator(&mut reader) {
            Ok(op) => op,
            Err(e) => {
                return Err(decode_error(&e));
            },
        };
        if is_call_indirect(&op) {
            calls_indirect = true;
        }
        if let Some(f) = ref_func_operator(&op) {
            ref_functions.push(f);
        }
        let decoded = decode_operator(&op)?;
        ops.push(decoded);
    }
    Ok(CodeBody { locals, ops, calls_indirect })
}

/// Reads what one element expression yields: a function reference, a null function
/// reference, or, unless `lenient`, the name of an instruction it may not hold. In `lenient`
/// mode other instructions are passed over, and an expression that yields nothing is null.
fn decode_element_expr(expr: &ConstExpr, lenient: bool) -> (r: Result<ExprItem, TranslateError>) {
    let mut reader = const_expr_operators(expr);
    let mut value: Option<Option<u32>> = None;
    let mut fuel: usize = usize::MAX;
    while fuel > 0 && !operators_done(&reader)
        decreases fuel,
    {
        fuel = fuel - 1;
        let op = match read_operator(&mut reader) {
            Ok(op) => op,
            Err(e) => {
                return Err(decode_error(&e));
            },
        };
        if let Some(heap) = ref_null_operator(&op) {
            if !lenient && heap != (HeapKind::AbstractFunc { shared: false }) {
                return Ok(ExprItem::Unsupported(operator_name(&op)));
            }
            value = Some(None);
        } else if let Some(f) = ref_func_operator(&op) {
            value = Some(Some(f));
        } else {
            match control_operator(&op) {
                Some(WasmOp::End) => {
                    break;
                },
                _ => {
                    if !lenient {
                        return Ok(ExprItem::Unsupported(operator_name(&op)));
                    }
                },
            }
        }
    }
    match value {
        Some(Some(f)) => Ok(ExprItem::Func(f)),
        Some(None) => Ok(ExprItem::Null),
        None => if lenient {
            Ok(ExprItem::Null)
        } else {
            Ok(ExprItem::Empty)
        },
    }
}

/// Reads the integer constant of an offset expression, or `None` when it starts with another
/// instruction.
fn decode_offset(expr: &ConstExpr) -> (r: Result<Option<i64>, TranslateError>) {
    let mut reader = const_expr_operators(expr);
    if operators_done(&reader) {
        return Ok(None);
    }
    let op = match read_operator(&mut reader) {
        Ok(op) => op,
        Err(e) => {
            return Err(decode_error(&e));
        },
    };
    match const_operator(&op) {
        Some(WasmOp::I32Const(v)) => Ok(Some(v as i64)),
        Some(WasmOp::I64Const(v)) => Ok(Some(v)),
        _ => Ok(None),
    }
}

/// Reads one element segment as plain values.
fn decode_element_segment(element: Element, lenient: bool) -> (r: Result<
    ElementSegment,
    TranslateError,
>) {
    let mode = match element_mode(&element) {
        ElementMode::Declared => SegmentMode::Declared,
        ElementMode::Passive => SegmentMode::Passive,
        ElementMode::Active { table_index, offset } => {
            let table = match table_index {
                Some(t) => t,
                None => 0,
            };
            let value = if lenient {
                None
            } else {
                decode_offset(&offset)?
            };
            SegmentMode::Active { table, offset: value }
        },
    };
    let items = match element_entries(element) {
        ElementEntries::Functions(funcs) => {
            let mut out: Vec<u32> = Vec::new();
            let mut fit = function_types(funcs);
            let mut fuel: usize = usize::MAX;
            while fuel > 0
                decreases fuel,
            {
                fuel = fuel - 1;
                match next_index(&mut fit) {
                    Some(Ok(f)) => out.push(f),
                    Some(Err(e)) => {
                        return Err(decode_error(&e));
                    },
                    None => {
                        break;
                    },
                }
            }
            SegmentItems::Functions(out)
        },
        ElementEntries::Expressions(kind, exprs) => {
            let mut out: Vec<ExprItem> = Vec::new();
            let mut eit = element_exprs(exprs);
            let mut fuel: usize = usize::MAX;
            while fuel > 0
                decreases fuel,
            {
                fuel = fuel - 1;
                match next_element_expr(&mut eit) {
                    Some(Ok(expr)) => out.push(decode_element_expr(&expr, lenient)?),
                    Some(Err(e)) => {
                        return Err(decode_error(&e));
                    },
                    None => {
                        break;
                    },
                }
            }
            SegmentItems::Expressions(is_funcref_kind(kind), out)
        },
    };
    Ok(ElementSegment { mode, items })
}

/// Reads the element section: each segment is checked (see [`check_element_segment`]) and
/// the functions it references are kept. In `lenient` mode nothing is checked and the
/// functions of every segment are kept.
fn decode_elements(
    r: SectionLimited<Element>,
    tables_len: usize,
    lenient: bool,
    out: &mut Vec<u32>,
) -> (res: Result<(), TranslateError>)
    ensures
        exists|segs: Seq<ElementSegment>|
            #[trigger] accepted_segments(segs, tables_len, lenient, old(out)@, final(out)@),
{
    let mut it = elements(r);
    let mut fuel: usize = usize::MAX;
    let ghost mut segs: Seq<ElementSegment> = Seq::empty();
    proof {
        assert(out@ =~= old(out)@ + collected_functions(segs));
        assert(accepted_segments(segs, tables_len, lenient, old(out)@, out@));
    }
    while fuel > 0
        invariant
            accepted_segments(segs, tables_len, lenient, old(out)@, out@),
        decreases fuel,
    {
        fuel = fuel - 1;
        let element = match next_element(&mut it) {
            Some(Ok(e)) => e,
            Some(Err(e)) => {
                return Err(decode_error(&e));
            },
            None => {
                break;
            },
        };
        let seg = decode_element_segment(element, lenient)?;
        let ghost before = out@;
        if lenient {
            keep_segment_functions(&seg, out);
        } else {
            check_element_segment(&seg, tables_len, out)?;
        }
        proof {
            let next = segs.push(seg);
            assert(next.drop_last() =~= segs);
            assert(out@ =~= old(out)@ + collected_functions(next));
            assert forall|i: int| 0 <= i < next.len() && !lenient implies (#[trigger] segment_error(
                next[i],
                tables_len,
            )) is None by {
                if i < segs.len() {
                    assert(next[i] == segs[i]);
                }
            }
            segs = next;
        }
    }
    Ok(())
}

/// Reads the type section.
fn decode_types(r: SectionLimited<RecGroup>, out: &mut Vec<FuncSig>) -> (res: Result<
    (),
    TranslateError,
>) {
    let mut it = rec_groups(r);
    let mut fuel: usize = usize::MAX;
    while fuel > 0
        decreases fuel,
    {
        fuel = fuel - 1;
        let group = match next_rec_group(&mut it) {
            Some(Ok(g)) => g,
            Some(Err(e)) => {
                return Err(decode_error(&e));
            },
            None => {
                break;
            },
        };
        let n = rec_group_len(&group);
        let mut i: usize = 0;
        while i < n
            decreases n - i,
        {
            if let Some(f) = rec_group_func(&group, i) {
                let (params, results) = func_type_parts(&f);
                out.push(FuncSig { params: val_kinds(&params), results: val_kinds(&results) });
            }
            i = i + 1;
        }
    }
    Ok(())
}

/// Reads the import section: only function imports are accepted.
fn decode_imports(r: SectionLimited<Imports>, lenient: bool, out: &mut Vec<FunctionImport>) -> (res: Result<
    (),
    TranslateError,
>) {
    let mut groups = import_groups(r);
    let mut fuel: usize = usize::MAX;
    while fuel > 0
        decreases fuel,
    {
        fuel = fuel - 1;
        let group = match next_import_group(&mut groups) {
            Some(Ok(g)) => g,
            Some(Err(e)) => {
                return Err(decode_error(&e));
            },
            None => {
                break;
            },
        };
        let mut items = imports_of_group(group);
        let mut fuel2: usize = usize::MAX;
        while fuel2 > 0
            decreases fuel2,
        {
            fuel2 = fuel2 - 1;
            let import = match next_import(&mut items) {
                Some(Ok(i)) => i,
                Some(Err(e)) => {
                    return Err(decode_error(&e));
                },
                None => {
                    break;
                },
            };
            let (module, name) = import_names(&import);
            match import_type(&import) {
                ImportType::Func(type_index) => out.push(
                    FunctionImport { module, name, type_index },
                ),
                ImportType::Global => {
                    if !lenient {
                        return Err(TranslateError::GlobalImport { module, name });
                    }
                },
                ImportType::Other => {
                    if !lenient {
                        return Err(TranslateError::NonFunctionImport { name });
                    }
                },
            }
        }
    }
    Ok(())
}

/// Reads a section of indices.
fn decode_indices(r: SectionLimited<u32>, out: &mut Vec<u32>) -> (res: Result<(), TranslateError>) {
    let mut it = function_types(r);
    let mut fuel: usize = usize::MAX;
    while fuel > 0
        decreases fuel,
    {
        fuel = fuel - 1;
        match next_index(&mut it) {
            Some(Ok(i)) => out.push(i),
            Some(Err(e)) => {
                return Err(decode_error(&e));
            },
            None => {
                break;
            },
        }
    }
    Ok(())
}

/// Reads the table section: 32-bit, unshared tables of nullable function references.
fn decode_tables(r: SectionLimited<Table>, out: &mut Vec<TableDesc>) -> (res: Result<
    (),
    TranslateError,
>) {
    let mut it = tables(r);
    let mut fuel: usize = usize::MAX;
    while fuel > 0
        decreases fuel,
    {
        fuel = fuel - 1;
        let table = match next_table(&mut it) {
            Some(Ok(t)) => t,
            Some(Err(e)) => {
                return Err(decode_error(&e));
            },
            None => {
                break;
            },
        };
        let (table64, shared, element_kind, initial, maximum) = table_type(&table);
        let funcref = is_funcref_kind(element_kind);
        if table64 {
            return Err(TranslateError::Table64);
        }
        if shared {
            return Err(TranslateError::SharedTable);
        }
        if !funcref {
            return Err(TranslateError::NonFuncrefTable);
        }
        if initial > usize::MAX as u64 {
            return Err(TranslateError::TableLimit);
        }
        let maximum = match maximum {
            Some(m) => {
                if m > u32::MAX as u64 {
                    return Err(TranslateError::TableLimit);
                }
                Some(m as u32)
            },
            None => None,
        };
        out.push(TableDesc { initial, maximum });
    }
    Ok(())
}

/// Reads the memory section: 32-bit, unshared memories whose limits fit 32 bits.
fn decode_memories(r: SectionLimited<MemoryType>, out: &mut Vec<MemoryDesc>) -> (res: Result<
    (),
    TranslateError,
>) {
    let mut it = memories(r);
    let mut fuel: usize = usize::MAX;
    while fuel > 0
        decreases fuel,
    {
        fuel = fuel - 1;
        let memory = match next_memory(&mut it) {
            Some(Ok(m)) => m,
            Some(Err(e)) => {
                return Err(decode_error(&e));
            },
            None => {
                break;
            },
        };
        let (memory64, shared, initial, maximum) = memory_type(&memory);
        if memory64 {
            return Err(TranslateError::Memory64);
        }
        if shared {
            return Err(TranslateError::SharedMemory);
        }
        if initial > u32::MAX as u64 {
            return Err(TranslateError::MemoryLimit);
        }
        let maximum = match maximum {
            Some(m) => {
                if m > u32::MAX as u64 {
                    return Err(TranslateError::MemoryLimit);
                }
                Some(m as u32)
            },
            None => None,
        };
        out.push(MemoryDesc { initial: initial as u32, maximum });
    }
    Ok(())
}

/// Reads the global section: only i32 and i64 globals are accepted.
fn decode_globals(r: SectionLimited<Global>, out: &mut Vec<ValKind>) -> (res: Result<
    (),
    TranslateError,
>)
    requires
        forall|i: int| 0 <= i < old(out)@.len() ==> is_integer(#[trigger] old(out)@[i]),
    ensures
        forall|i: int| 0 <= i < final(out)@.len() ==> is_integer(#[trigger] final(out)@[i]),
{
    let mut it = globals(r);
    let mut fuel: usize = usize::MAX;
    while fuel > 0
        invariant
            forall|i: int| 0 <= i < out@.len() ==> is_integer(#[trigger] out@[i]),
        decreases fuel,
    {
        fuel = fuel - 1;
        let kind = match next_global_type(&mut it) {
            Some(Ok(t)) => val_kind(t),
            Some(Err(e)) => {
                return Err(decode_error(&e));
            },
            None => {
                break;
            },
        };
        if !(kind == ValKind::I32 || kind == ValKind::I64) {
            return Err(TranslateError::UnsupportedGlobalType { kind });
        }
        out.push(kind);
    }
    Ok(())
}

/// Reads the export section: the function exports, in order.
fn decode_exports(r: SectionLimited<Export>, out: &mut Vec<FunctionExport>) -> (res: Result<
    (),
    TranslateError,
>) {
    let mut it = exports(r);
    let mut fuel: usize = usize::MAX;
    while fuel > 0
        decreases fuel,
    {
        fuel = fuel - 1;
        match next_export(&mut it) {
            Some(Ok((name, is_func, index))) => {
                if is_func {
                    out.push(FunctionExport { name, index });
                }
            },
            Some(Err(e)) => {
                return Err(decode_error(&e));
            },
            None => {
                break;
            },
        }
    }
    Ok(())
}

/// Reads a module into the parts the translator uses.
///
/// Rejects what the translator rejects at the module level: imports other than functions,
/// 64-bit or shared tables and memories, tables of other references than `funcref`, globals
/// other than i32 and i64, several start sections, exception tags and declared element segments.
pub fn decode_module(bytes: &[u8]) -> (r: Result<WasmModule, TranslateError>)
    ensures
        r matches Ok(m) ==> forall|i: int| 0 <= i < m.globals@.len() ==> is_integer(
            #[trigger] m.globals@[i],
        ),
{
    decode_module_with(bytes, false)
}

/// Reads a module for the reachability analysis: the function imports, the function exports,
/// the start function, the functions that element segments reference and the function bodies.
/// Nothing but a malformed module is rejected; the other imports, the tables, memories,
/// globals and tags are passed over.
pub(crate) fn decode_module_for_analysis(bytes: &[u8]) -> (r: Result<WasmModule, TranslateError>) {
    decode_module_with(bytes, true)
}

/// Reads a module; `lenient` passes over what only the translator rejects.
fn decode_module_with(bytes: &[u8], lenient: bool) -> (r: Result<WasmModule, TranslateError>)
    ensures
        r matches Ok(m) ==> forall|i: int| 0 <= i < m.globals@.len() ==> is_integer(
            #[trigger] m.globals@[i],
        ),
{
    let mut module = WasmModule {
        types: Vec::new(),
        imports: Vec::new(),
        functions: Vec::new(),
        tables: Vec::new(),
        memories: Vec::new(),
        globals: Vec::new(),
        exports: Vec::new(),
        start: None,
        element_functions: Vec::new(),
        ref_functions: Vec::new(),
        bodies: Vec::new(),
        has_code_section: false,
        custom_sections: Vec::new(),
    };
    let mut parser = new_parser();
    let mut offset: usize = 0;
    let mut fuel: usize = bytes.len().saturating_add(2);
    while fuel > 0
        invariant
            offset <= bytes@.len(),
            forall|i: int| 0 <= i < module.globals@.len() ==> is_integer(#[trigger] module.globals@[i]),
        decreases fuel,
    {
        fuel = fuel - 1;
        let rest = vstd::slice::slice_subrange(bytes, offset, bytes.len());
        let (consumed, payload) = match parse_next(&mut parser, rest) {
            Ok(Some(p)) => p,
            Ok(None) => {
                return Err(TranslateError::TruncatedModule);
            },
            Err(e) => {
                return Err(decode_error(&e));
            },
        };
        offset = offset + consumed;
        let section = match classify_module_section(payload) {
            Ok(s) => s,
            Err(other) => match classify_code_section(other) {
                Ok(s) => s,
                Err(rest) => classify_component_section(rest),
            },
        };
        match section {
            Section::Version => {},
            Section::Types(r) => decode_types(r, &mut module.types)?,
            Section::Imports(r) => decode_imports(r, lenient, &mut module.imports)?,
            Section::Functions(r) => decode_indices(r, &mut module.functions)?,
            Section::Tables(r) => if !lenient {
                decode_tables(r, &mut module.tables)?
            },
            Section::Memories(r) => if !lenient {
                decode_memories(r, &mut module.memories)?
            },
            Section::Globals(r) => if !lenient {
                decode_globals(r, &mut module.globals)?
            },
            Section::Exports(r) => decode_exports(r, &mut module.exports)?,
            Section::Start(func) => {
                if !lenient && module.start.is_some() {
                    return Err(TranslateError::MultipleStart);
                }
                module.start = Some(func);
            },
            Section::Elements(r) => decode_elements(
                r,
                module.tables.len(),
                lenient,
                &mut module.element_functions,
            )?,
            Section::CodeStart => {
                module.has_code_section = true;
            },
            Section::CodeEntry(body) => {
                let decoded = decode_body(&body, &mut module.ref_functions)?;
                module.bodies.push(decoded);
            },
            Section::Tags => {
                if !lenient {
                    return Err(TranslateError::ExceptionTags);
                }
            },
            Section::End => {
                return Ok(module);
            },
            Section::Custom(r) => {
                module.custom_sections.push((custom_section_name(&r), custom_section_data(&r)));
            },
            Section::Data => {
                if !lenient {
                    return Err(
                        TranslateError::RuntimeHelperRequired { name: "data segments".to_string() },
                    );
                }
            },
            Section::DataCount => {},
            Section::Unknown => {},
            Section::Component => {},
            Section::Other => {},
        }
    }
    Err(TranslateError::TooManyPayloads)
}

} // verus!
