//! Translation of a whole module: every function body, the export stubs, the call
//! resolution and the manifest methods.

use vstd::prelude::*;
use vstd::string::{StringExecFns, StringSliceAdditionalSpecFns};

use crate::control::{is_integer, is_integer_kind};
use crate::decode::decode_module;
use crate::emit::{
    emit_call_placeholder, emit_jump_placeholder, emit_load_arg, emit_load_static, emit_push_int,
    emit_store_static, keeps_prefix, lemma_patched_jump_reaches_target, patch_call, patch_jump,
    displacement_fits, slot_bytes, values_after, SlotOp, StackValue,
};
use crate::errors::TranslateError;
use crate::features::{is_payment_hook, is_storage_descriptor, without_underscores, FeatureTracker};
use crate::function::{
    all_integer, declared_local_count, env_import_error, locals_integer, manifest_return,
    reaches_unsupported, straight_line,
    translate_function, wasm_val_type_to_manifest, FunctionRegistry,
};
use crate::header::{validate_wasm_header, wasm_preamble};
use crate::json::{collect_safe_methods, distinct_names, holds_name, marks_safe, JsonValue};
use crate::imports::{
    handle_import_call, neo_call_service, register_import_features, registered_service, CHECK_WITNESS,
};
use crate::module::{FuncSig, FunctionExport, ValKind, WasmModule};
use crate::opcodes::{JMPIF_L, RET};
use crate::reachability::{analyze_function_dependency_graph, reachable_defined_functions};
use crate::syscalls::spec_lookup;
use crate::text::{
    ascii_lower_seq, eq_ignore_case, sort_strings, str_eq_ignore_case, strings_sorted,
};
use vstd::utf8::encode_utf8;
use crate::tokens::{infer_contract_tokens, spec_contract_tokens, toks, MethodToken};

verus! {

/// The decimal digits of `n`.
pub open spec fn decimal(n: nat) -> Seq<char>
    decreases n,
{
    if n < 10 {
        seq![(48 + n) as char]
    } else {
        decimal(n / 10).push((48 + n % 10) as char)
    }
}

/// The one-character string of the digit `d`.
fn digit_str(d: usize) -> (r: &'static str)
    requires
        d < 10,
    ensures
        r@ == seq![(48 + d) as char],
{
    proof {
        reveal_strlit("0");
        reveal_strlit("1");
        reveal_strlit("2");
        reveal_strlit("3");
        reveal_strlit("4");
        reveal_strlit("5");
        reveal_strlit("6");
        reveal_strlit("7");
        reveal_strlit("8");
        reveal_strlit("9");
    }
    match d {
        0 => "0",
        1 => "1",
        2 => "2",
        3 => "3",
        4 => "4",
        5 => "5",
        6 => "6",
        7 => "7",
        8 => "8",
        _ => "9",
    }
}

/// Appends the decimal digits of `n`.
fn append_decimal(s: &mut String, n: usize)
    ensures
        final(s)@ == old(s)@ + decimal(n as nat),
    decreases n,
{
    if n >= 10 {
        append_decimal(s, n / 10);
    }
    s.append(digit_str(n % 10));
    proof {
        if n >= 10 {
            assert(decimal(n as nat) == decimal((n / 10) as nat).push((48 + n % 10) as char));
        }
    }
}

/// The manifest name of parameter `index`: `arg` and its decimal number.
pub fn parameter_name(index: usize) -> (r: String)
    ensures
        r@ == "arg"@ + decimal(index as nat),
{
    let mut s = String::from_str("arg");
    append_decimal(&mut s, index);
    s
}

/// What a translation is configured with.
pub struct TranslationConfig {
    /// The name of the contract in its manifest; not empty.
    pub contract_name: String,
    /// Manifest overlays embedded with the module; the methods their `abi` marks safe become
    /// safe methods.
    pub manifest_overlays: Vec<JsonValue>,
}

impl TranslationConfig {
    /// A configuration for the contract `contract_name`, without overlays.
    pub fn new(contract_name: String) -> (r: TranslationConfig)
        ensures
            r.contract_name == contract_name,
            r.manifest_overlays@.len() == 0,
    {
        TranslationConfig { contract_name, manifest_overlays: Vec::new() }
    }
}

/// A parameter of a manifest method.
#[derive(Debug, Clone)]
pub struct ManifestParameter {
    pub name: String,
    /// The manifest type of the parameter.
    pub kind: &'static str,
}

/// A method of the contract manifest.
#[derive(Debug, Clone)]
pub struct ManifestMethod {
    pub name: String,
    pub parameters: Vec<ManifestParameter>,
    pub return_type: &'static str,
    /// Where the method's code starts in the script.
    pub offset: u32,
    pub safe: bool,
}

/// The result of translating a module.
pub struct Translation {
    pub contract_name: String,
    /// The NeoVM script.
    pub script: Vec<u8>,
    /// The manifest methods, one per export.
    pub methods: Vec<ManifestMethod>,
    /// The contract calls that the script makes through `System.Contract.Call`.
    pub method_tokens: Vec<MethodToken>,
    /// The manifest features the contract uses.
    pub features: Vec<&'static str>,
}

/// The manifest parameters of a signature: `arg<i>` for parameter `i`, typed `Integer` for
/// i32 and i64 and `Any` otherwise.
pub fn manifest_parameters(sig: &FuncSig) -> (r: Vec<ManifestParameter>)
    ensures
        r@.len() == sig.params@.len(),
        forall|i: int|
            0 <= i < r@.len() ==> (#[trigger] r@[i]).name@ == "arg"@ + decimal(i as nat) && r@[i].kind@
                == (if is_integer(sig.params@[i]) {
                "Integer"@
            } else {
                "Any"@
            }),
{
    let mut out: Vec<ManifestParameter> = Vec::new();
    let mut i: usize = 0;
    while i < sig.params.len()
        invariant
            i <= sig.params@.len(),
            out@.len() == i,
            forall|k: int|
                0 <= k < i ==> (#[trigger] out@[k]).name@ == "arg"@ + decimal(k as nat)
                    && out@[k].kind@ == (if is_integer(sig.params@[k]) {
                    "Integer"@
                } else {
                    "Any"@
                }),
        decreases sig.params@.len() - i,
    {
        let kind: &'static str = match wasm_val_type_to_manifest(sig.params[i]) {
            Ok(k) => k,
            Err(_) => "Any",
        };
        proof {
            reveal_strlit("Any");
        }
        out.push(ManifestParameter { name: parameter_name(i), kind });
        i = i + 1;
    }
    out
}

/// The manifest signature of an exported method: `_deploy` (in any case) always takes
/// `data: Any` and `update: Boolean` and returns `Void`; other methods keep theirs.
pub fn normalize_exported_manifest_signature(
    method_name: &str,
    parameters: Vec<ManifestParameter>,
    return_type: &'static str,
) -> (r: (Vec<ManifestParameter>, &'static str))
    ensures
        eq_ignore_case(method_name.spec_bytes(), "_deploy".spec_bytes()) ==> {
            &&& r.0@.len() == 2
            &&& r.0@[0].name@ == "data"@ && r.0@[0].kind@ == "Any"@
            &&& r.0@[1].name@ == "update"@ && r.0@[1].kind@ == "Boolean"@
            &&& r.1@ == "Void"@
        },
        !eq_ignore_case(method_name.spec_bytes(), "_deploy".spec_bytes()) ==> r.0@ == parameters@
            && r.1 == return_type,
{
    if str_eq_ignore_case(method_name, "_deploy") {
        let mut out: Vec<ManifestParameter> = Vec::new();
        out.push(ManifestParameter { name: String::from_str("data"), kind: "Any" });
        out.push(ManifestParameter { name: String::from_str("update"), kind: "Boolean" });
        return (out, "Void");
    }
    (parameters, return_type)
}

/// Whether one of the first `n` overlays marks `name` safe.
pub open spec fn overlays_mark_safe(overlays: Seq<JsonValue>, name: Seq<char>, n: int) -> bool {
    exists|o: int| 0 <= o < n && #[trigger] marks_safe(overlays[o], name)
}

/// Whether a list of manifest features holds `feature`.
pub open spec fn has_feature(features: Seq<&'static str>, feature: Seq<char>) -> bool {
    exists|i: int| 0 <= i < features.len() && (#[trigger] features[i])@ == feature
}

/// Whether an export's name, lower-cased and without `_`, names a payment hook
/// (`onPayment`, `onNEP17Payment`, `onNEP11Payment`): such an export makes the contract payable.
pub open spec fn is_payment_export(e: FunctionExport) -> bool {
    is_payment_hook(without_underscores(ascii_lower_seq(encode_utf8(e.name@))))
}

/// Whether an export below `n` of function `index` not given a method yet is a payment hook.
pub open spec fn newly_payable_before(
    exports: Seq<FunctionExport>,
    processed: Seq<bool>,
    index: int,
    n: int,
) -> bool {
    exists|k: int|
        0 <= k < n && exports_function(exports, k, index) && !processed[k] && is_payment_export(
            #[trigger] exports[k],
        )
}

/// Whether an export of function `index` not given a method yet is a payment hook.
pub open spec fn newly_payable(exports: Seq<FunctionExport>, processed: Seq<bool>, index: int) -> bool {
    newly_payable_before(exports, processed, index, exports.len() as int)
}

/// Whether an export given a method is a payment hook.
pub open spec fn payable_among(exports: Seq<FunctionExport>, processed: Seq<bool>) -> bool {
    exists|k: int| 0 <= k < exports.len() && processed[k] && is_payment_export(#[trigger] exports[k])
}

/// Whether export `k` names function `index`.
pub open spec fn exports_function(exports: Seq<FunctionExport>, k: int, index: int) -> bool {
    0 <= k < exports.len() && exports[k].index == index
}

/// Whether `m` is the method of export `e` of function `index`, with the given return type,
/// at the given offset.
pub open spec fn method_of_export(
    m: ManifestMethod,
    e: FunctionExport,
    index: int,
    return_type: &'static str,
    offset: usize,
) -> bool {
    e.index == index && m.name == e.name && m.return_type == return_type && m.offset
        == offset as u32 && !m.safe
}

/// Whether `m` is the method of some export of function `index`, with the given return type,
/// at the given offset.
pub open spec fn is_method_of(
    exports: Seq<FunctionExport>,
    m: ManifestMethod,
    index: int,
    return_type: &'static str,
    offset: usize,
) -> bool {
    exists|j: int|
        0 <= j < exports.len() && #[trigger] method_of_export(
            m,
            exports[j],
            index,
            return_type,
            offset,
        )
}

/// The type index of function `index`: that of its import, or that of its definition.
pub open spec fn function_type_index(module: WasmModule, index: int) -> int {
    if index < module.imports@.len() {
        module.imports@[index].type_index as int
    } else {
        module.functions@[index - module.imports@.len()] as int
    }
}

/// Whether manifest parameters describe the parameters `params`: `arg0`, `arg1`, ... in
/// order, `Integer` for an integer parameter and `Any` for another.
pub open spec fn params_fit(ps: Seq<ManifestParameter>, params: Seq<ValKind>) -> bool {
    &&& ps.len() == params.len()
    &&& forall|i: int|
        0 <= i < ps.len() ==> (#[trigger] ps[i]).name@ == "arg"@ + decimal(i as nat) && ps[i].kind@
            == (if is_integer(params[i]) {
            "Integer"@
        } else {
            "Any"@
        })
}

/// Whether method `m` is that of export `k` of `module`, with the parameters and return type
/// of the export's function, at the code offset `offs` gives that function.
pub open spec fn method_placed(module: WasmModule, offs: Seq<int>, m: ManifestMethod, k: int) -> bool {
    let e = module.exports@[k];
    let ti = function_type_index(module, e.index as int);
    &&& 0 <= k < module.exports@.len()
    &&& e.index < offs.len()
    &&& m.name == e.name
    &&& m.offset == offs[e.index as int] as u32
    &&& 0 <= ti < module.types@.len()
    &&& m.return_type@ == manifest_return(module.types@[ti].results@)
    &&& params_fit(m.parameters@, module.types@[ti].params@)
}

/// Whether method `m` is placed for an export of a function whose index lies in `lo..hi` or
/// in `lo2..hi2`.
pub open spec fn placed_in(
    module: WasmModule,
    offs: Seq<int>,
    m: ManifestMethod,
    lo: int,
    hi: int,
    lo2: int,
    hi2: int,
) -> bool {
    exists|k: int|
        #[trigger] method_placed(module, offs, m, k) && ((lo <= module.exports@[k].index < hi) || (
        lo2 <= module.exports@[k].index < hi2))
}

/// Whether method `m` is placed for some export.
pub open spec fn placed(module: WasmModule, offs: Seq<int>, m: ManifestMethod) -> bool {
    exists|k: int| #[trigger] method_placed(module, offs, m, k)
}

/// Whether every method is placed for an export of a function whose index lies in
/// `lo..hi` or in `lo2..hi2`.
pub open spec fn all_placed(
    module: WasmModule,
    offs: Seq<int>,
    methods: Seq<ManifestMethod>,
    lo: int,
    hi: int,
    lo2: int,
    hi2: int,
) -> bool {
    forall|m: int|
        0 <= m < methods.len() ==> #[trigger] placed_in(module, offs, methods[m], lo, hi, lo2, hi2)
}

/// How the code of a translation is laid out: `offs` gives each function its code offset,
/// the defined functions' code follows in order from the start of the script, and each
/// method is placed at the offset of its export's function, with that function's
/// parameters and return type.
pub open spec fn laid_out(module: WasmModule, t: Translation, offs: Seq<int>) -> bool {
    let ni = module.imports@.len() as int;
    &&& offs.len() == ni + module.functions@.len()
    &&& module.bodies@.len() <= module.functions@.len()
    &&& module.bodies@.len() > 0 ==> offs[ni] == 0
    &&& forall|d1: int, d2: int|
        0 <= d1 < d2 < module.bodies@.len() ==> #[trigger] offs[ni + d1] < #[trigger] offs[ni + d2]
    &&& forall|d: int| 0 <= d < module.bodies@.len() ==> #[trigger] offs[ni + d] < t.script@.len()
    &&& forall|m: int| 0 <= m < t.methods@.len() ==> #[trigger] placed(module, offs, t.methods@[m])
}

/// Exports that alias one function share its code: the methods placed for two exports of the
/// same function start at the same offset.
pub proof fn lemma_aliases_share_offset(
    module: WasmModule,
    offs: Seq<int>,
    m1: ManifestMethod,
    m2: ManifestMethod,
    k1: int,
    k2: int,
)
    requires
        method_placed(module, offs, m1, k1),
        method_placed(module, offs, m2, k2),
        module.exports@[k1].index == module.exports@[k2].index,
    ensures
        m1.offset == m2.offset,
{
}

/// Updating the offset of a function outside the ranges keeps every method placed.
proof fn lemma_placed_update(
    module: WasmModule,
    offs: Seq<int>,
    methods: Seq<ManifestMethod>,
    lo: int,
    hi: int,
    lo2: int,
    hi2: int,
    x: int,
    v: int,
)
    requires
        all_placed(module, offs, methods, lo, hi, lo2, hi2),
        !(lo <= x < hi),
        !(lo2 <= x < hi2),
        0 <= x < offs.len(),
    ensures
        all_placed(module, offs.update(x, v), methods, lo, hi, lo2, hi2),
{
    let o2 = offs.update(x, v);
    assert forall|m: int| 0 <= m < methods.len() implies #[trigger] placed_in(
        module,
        o2,
        methods[m],
        lo,
        hi,
        lo2,
        hi2,
    ) by {
        assert(placed_in(module, offs, methods[m], lo, hi, lo2, hi2));
        let k = choose|k: int|
            #[trigger] method_placed(module, offs, methods[m], k) && ((lo
                <= module.exports@[k].index < hi) || (lo2 <= module.exports@[k].index < hi2));
        assert(o2[module.exports@[k].index as int] == offs[module.exports@[k].index as int]);
        assert(method_placed(module, o2, methods[m], k));
    }
}

/// Methods added for the exports of function `x`, placed at its offset, join the placed ones.
proof fn lemma_placed_append(
    module: WasmModule,
    offs: Seq<int>,
    before: Seq<ManifestMethod>,
    after: Seq<ManifestMethod>,
    lo: int,
    hi: int,
    lo2: int,
    hi2: int,
    x: int,
    return_type: &'static str,
    offset: usize,
)
    requires
        all_placed(module, offs, before, lo, hi, lo2, hi2),
        (lo <= x < hi) || (lo2 <= x < hi2),
        0 <= x < offs.len(),
        offs[x] == offset as int,
        0 <= function_type_index(module, x) < module.types@.len(),
        return_type@ == manifest_return(module.types@[function_type_index(module, x)].results@),
        after.len() >= before.len(),
        forall|m: int| 0 <= m < before.len() ==> after[m] == before[m],
        forall|m: int|
            before.len() <= m < after.len() ==> #[trigger] is_method_of(
                module.exports@,
                after[m],
                x,
                return_type,
                offset,
            ),
        forall|m: int|
            before.len() <= m < after.len() ==> params_fit(
                (#[trigger] after[m]).parameters@,
                module.types@[function_type_index(module, x)].params@,
            ),
    ensures
        all_placed(module, offs, after, lo, hi, lo2, hi2),
{
    assert forall|m: int| 0 <= m < after.len() implies #[trigger] placed_in(
        module,
        offs,
        after[m],
        lo,
        hi,
        lo2,
        hi2,
    ) by {
        if m < before.len() {
            assert(after[m] == before[m]);
            assert(placed_in(module, offs, before[m], lo, hi, lo2, hi2));
        } else {
            assert(is_method_of(module.exports@, after[m], x, return_type, offset));
            assert(params_fit(after[m].parameters@, module.types@[function_type_index(module, x)].params@));
            let j = choose|j: int|
                0 <= j < module.exports@.len() && #[trigger] method_of_export(
                    after[m],
                    module.exports@[j],
                    x,
                    return_type,
                    offset,
                );
            assert(method_placed(module, offs, after[m], j));
        }
    }
}

/// Widening the ranges keeps every method placed.
proof fn lemma_placed_widen(
    module: WasmModule,
    offs: Seq<int>,
    methods: Seq<ManifestMethod>,
    lo: int,
    hi: int,
    lo2: int,
    hi2: int,
    hi_w: int,
    hi2_w: int,
)
    requires
        all_placed(module, offs, methods, lo, hi, lo2, hi2),
        hi <= hi_w,
        hi2 <= hi2_w,
    ensures
        all_placed(module, offs, methods, lo, hi_w, lo2, hi2_w),
{
    assert forall|m: int| 0 <= m < methods.len() implies #[trigger] placed_in(
        module,
        offs,
        methods[m],
        lo,
        hi_w,
        lo2,
        hi2_w,
    ) by {
        assert(placed_in(module, offs, methods[m], lo, hi, lo2, hi2));
        let k = choose|k: int|
            #[trigger] method_placed(module, offs, methods[m], k) && ((lo
                <= module.exports@[k].index < hi) || (lo2 <= module.exports@[k].index < hi2));
        assert(method_placed(module, offs, methods[m], k));
    }
}

/// Whether `g` gives the exports that the methods `after` adds to `before` were made for:
/// each a distinct export of function `index` that `processed` had not yet given a method,
/// every such export appearing.
#[verifier::opaque]
pub open spec fn new_sources(
    exports: Seq<FunctionExport>,
    processed: Seq<bool>,
    index: int,
    before: Seq<ManifestMethod>,
    after: Seq<ManifestMethod>,
    g: Seq<int>,
) -> bool {
    &&& g.len() == after.len() - before.len()
    &&& forall|j: int|
        0 <= j < g.len() ==> exports_function(exports, #[trigger] g[j], index) && !processed[g[j]]
            && after[before.len() + j].name == exports[g[j]].name
    &&& forall|i: int, j: int| 0 <= i < j < g.len() ==> #[trigger] g[i] != #[trigger] g[j]
    &&& forall|k: int|
        0 <= k < exports.len() && exports_function(exports, k, index) && !processed[k] ==> exists|
            j: int,
        | 0 <= j < g.len() && #[trigger] g[j] == k
}

/// Whether `src` gives, for each method, the export it was made for: distinct exports, each
/// with the method's name.
#[verifier::opaque]
pub open spec fn method_sources(exports: Seq<FunctionExport>, methods: Seq<ManifestMethod>, src: Seq<
    int,
>) -> bool {
    &&& src.len() == methods.len()
    &&& forall|m: int|
        0 <= m < src.len() ==> 0 <= #[trigger] src[m] < exports.len() && methods[m].name
            == exports[src[m]].name
    &&& forall|i: int, j: int| 0 <= i < j < src.len() ==> #[trigger] src[i] != #[trigger] src[j]
}

/// Exports with distinct names give methods with distinct names.
pub proof fn lemma_method_names_distinct(
    exports: Seq<FunctionExport>,
    methods: Seq<ManifestMethod>,
    src: Seq<int>,
)
    requires
        method_sources(exports, methods, src),
        forall|i: int, j: int|
            0 <= i < j < exports.len() ==> (#[trigger] exports[i]).name@ != (#[trigger] exports[j]).name@,
    ensures
        forall|i: int, j: int|
            0 <= i < j < methods.len() ==> (#[trigger] methods[i]).name@ != (#[trigger] methods[j]).name@,
{
    reveal(method_sources);
    assert forall|i: int, j: int| 0 <= i < j < methods.len() implies (#[trigger] methods[i]).name@
        != (#[trigger] methods[j]).name@ by {
        let a = src[i];
        let b = src[j];
        assert(a != b);
        if a < b {
            assert(exports[a].name@ != exports[b].name@);
        } else {
            assert(exports[b].name@ != exports[a].name@);
        }
    }
}

/// Whether `k` is the source of some method.
#[verifier::opaque]
pub open spec fn has_source(src: Seq<int>, k: int) -> bool {
    exists|m: int| 0 <= m < src.len() && src[m] == k
}

/// Adding the methods of one more function keeps the sources of the methods, and which
/// exports have one.
proof fn lemma_sources_extend(
    exports: Seq<FunctionExport>,
    p0: Seq<bool>,
    p1: Seq<bool>,
    index: int,
    before: Seq<ManifestMethod>,
    after: Seq<ManifestMethod>,
    src: Seq<int>,
    g: Seq<int>,
)
    requires
        p0.len() == exports.len(),
        p1.len() == exports.len(),
        method_sources(exports, before, src),
        forall|k: int| 0 <= k < exports.len() ==> (#[trigger] p0[k] <==> has_source(src, k)),
        new_sources(exports, p0, index, before, after, g),
        after.len() >= before.len(),
        forall|m: int| 0 <= m < before.len() ==> after[m] == before[m],
        forall|k: int|
            0 <= k < exports.len() ==> #[trigger] p1[k] == (p0[k] || exports_function(
                exports,
                k,
                index,
            )),
    ensures
        method_sources(exports, after, src + g),
        forall|k: int| 0 <= k < exports.len() ==> (#[trigger] p1[k] <==> has_source(src + g, k)),
{
    reveal(method_sources);
    reveal(new_sources);
    reveal(has_source);
    let s2 = src + g;
    assert forall|m: int| 0 <= m < s2.len() implies 0 <= #[trigger] s2[m] < exports.len()
        && after[m].name == exports[s2[m]].name by {
        if m < src.len() {
            assert(s2[m] == src[m]);
            assert(after[m] == before[m]);
        } else {
            let j = m - src.len();
            assert(s2[m] == g[j]);
            assert(exports_function(exports, g[j], index));
        }
    }
    assert forall|i: int, j: int| 0 <= i < j < s2.len() implies #[trigger] s2[i] != #[trigger] s2[j] by {
        if j < src.len() {
            assert(src[i] != src[j]);
        } else if i >= src.len() {
            assert(g[i - src.len()] != g[j - src.len()]);
        } else {
            let k = g[j - src.len()];
            assert(s2[j] == k);
            assert(!p0[k]);
            assert(s2[i] == src[i]);
            if src[i] == k {
                assert(has_source(src, k));
            }
        }
    }
    assert forall|k: int| 0 <= k < exports.len() implies (#[trigger] p1[k] <==> has_source(s2, k)) by {
        if p0[k] {
            let m = choose|m: int| 0 <= m < src.len() && src[m] == k;
            assert(s2[m] == k);
        } else if exports_function(exports, k, index) {
            let j = choose|j: int| 0 <= j < g.len() && #[trigger] g[j] == k;
            assert(s2[src.len() + j] == k);
        }
        if has_source(s2, k) {
            let m = choose|m: int| 0 <= m < s2.len() && s2[m] == k;
            if m < src.len() {
                assert(src[m] == k);
            } else {
                assert(g[m - src.len()] == k);
                assert(exports_function(exports, g[m - src.len()], index));
            }
        }
    }
}

/// Methods with the same names keep their sources.
proof fn lemma_sources_rename(
    exports: Seq<FunctionExport>,
    a: Seq<ManifestMethod>,
    b: Seq<ManifestMethod>,
    src: Seq<int>,
)
    requires
        method_sources(exports, a, src),
        a.len() == b.len(),
        forall|m: int| 0 <= m < a.len() ==> (#[trigger] b[m]).name == a[m].name,
    ensures
        method_sources(exports, b, src),
{
    reveal(method_sources);
    assert forall|m: int| 0 <= m < src.len() implies 0 <= #[trigger] src[m] < exports.len()
        && b[m].name == exports[src[m]].name by {
        assert(b[m].name == a[m].name);
    }
}

/// When every export has a method, there are as many methods as exports.
proof fn lemma_sources_complete(
    exports: Seq<FunctionExport>,
    methods: Seq<ManifestMethod>,
    src: Seq<int>,
)
    requires
        method_sources(exports, methods, src),
        forall|k: int| 0 <= k < exports.len() ==> #[trigger] has_source(src, k),
    ensures
        methods.len() == exports.len(),
{
    reveal(method_sources);
    reveal(has_source);
    assert(src.no_duplicates()) by {
        assert forall|i: int, j: int| 0 <= i < src.len() && 0 <= j < src.len() && i != j implies src[i]
            != src[j] by {
            if i < j {
                assert(src[i] != src[j]);
            } else {
                assert(src[j] != src[i]);
            }
        }
    }
    src.unique_seq_to_set();
    let r = vstd::set_lib::set_int_range(0, exports.len() as int);
    vstd::set_lib::lemma_int_range(0, exports.len() as int);
    assert(src.to_set() =~= r) by {
        assert forall|k: int| #[trigger] r.contains(k) implies src.to_set().contains(k) by {
            assert(has_source(src, k));
            let m = choose|m: int| 0 <= m < src.len() && src[m] == k;
            assert(src.contains(k));
        }
        assert forall|k: int| #[trigger] src.to_set().contains(k) implies r.contains(k) by {
            assert(src.contains(k));
            let m = choose|m: int| 0 <= m < src.len() && src[m] == k;
        }
    }
}

/// Whether `src` gives the exports the methods were made for, exactly the exports that
/// `processed` marks having one.
#[verifier::opaque]
pub open spec fn sources_track(
    exports: Seq<FunctionExport>,
    methods: Seq<ManifestMethod>,
    processed: Seq<bool>,
    src: Seq<int>,
) -> bool {
    &&& method_sources(exports, methods, src)
    &&& processed.len() == exports.len()
    &&& forall|k: int| 0 <= k < exports.len() ==> (#[trigger] processed[k] <==> has_source(src, k))
}

/// Recording the methods of one more function keeps the sources tracked.
proof fn lemma_track_extend(
    exports: Seq<FunctionExport>,
    p0: Seq<bool>,
    p1: Seq<bool>,
    index: int,
    before: Seq<ManifestMethod>,
    after: Seq<ManifestMethod>,
    src: Seq<int>,
    g: Seq<int>,
)
    requires
        sources_track(exports, before, p0, src),
        p1.len() == exports.len(),
        new_sources(exports, p0, index, before, after, g),
        after.len() >= before.len(),
        forall|m: int| 0 <= m < before.len() ==> after[m] == before[m],
        forall|k: int|
            0 <= k < exports.len() ==> #[trigger] p1[k] == (p0[k] || exports_function(
                exports,
                k,
                index,
            )),
    ensures
        sources_track(exports, after, p1, src + g),
{
    reveal(sources_track);
    lemma_sources_extend(exports, p0, p1, index, before, after, src, g);
}

/// No methods yet, and no export processed: nothing to track.
proof fn lemma_track_empty(exports: Seq<FunctionExport>, methods: Seq<ManifestMethod>, processed: Seq<bool>)
    requires
        methods.len() == 0,
        processed.len() == exports.len(),
        forall|k: int| 0 <= k < exports.len() ==> !#[trigger] processed[k],
    ensures
        sources_track(exports, methods, processed, Seq::empty()),
{
    reveal(method_sources);
    reveal(has_source);
    reveal(sources_track);
}

/// Once every export is processed, the methods are as many as the exports.
proof fn lemma_track_complete(
    exports: Seq<FunctionExport>,
    methods: Seq<ManifestMethod>,
    processed: Seq<bool>,
    src: Seq<int>,
)
    requires
        sources_track(exports, methods, processed, src),
        forall|k: int| 0 <= k < exports.len() ==> #[trigger] processed[k],
    ensures
        methods.len() == exports.len(),
        method_sources(exports, methods, src),
{
    reveal(sources_track);
    assert forall|k: int| 0 <= k < exports.len() implies #[trigger] has_source(src, k) by {
        assert(processed[k]);
    }
    lemma_sources_complete(exports, methods, src);
}

/// Whether some method is named as export `k`.
pub open spec fn has_method_for(methods: Seq<ManifestMethod>, exports: Seq<FunctionExport>, k: int) -> bool {
    exists|m: int| 0 <= m < methods.len() && (#[trigger] methods[m]).name == exports[k].name
}

/// The position of the first export of function `index`, if there is one.
pub fn first_export_of(exports: &Vec<FunctionExport>, index: usize) -> (r: Option<usize>)
    ensures
        r matches Some(k) ==> exports_function(exports@, k as int, index as int) && forall|j: int|
            0 <= j < k ==> !exports_function(exports@, j, index as int),
        r is None ==> forall|j: int| !exports_function(exports@, j, index as int),
{
    let mut k: usize = 0;
    while k < exports.len()
        invariant
            k <= exports@.len(),
            forall|j: int| 0 <= j < k ==> !exports_function(exports@, j, index as int),
        decreases exports@.len() - k,
    {
        if exports[k].index as usize == index {
            return Some(k);
        }
        k = k + 1;
    }
    None
}

/// Adds a manifest method for each export of function `index` not recorded yet, at `offset`,
/// and marks those exports recorded.
fn record_methods(
    exports: &Vec<FunctionExport>,
    processed: &mut Vec<bool>,
    index: usize,
    sig: &FuncSig,
    return_type: &'static str,
    offset: usize,
    methods: &mut Vec<ManifestMethod>,
    features: &mut FeatureTracker,
)
    requires
        old(processed)@.len() == exports@.len(),
        forall|k: int|
            0 <= k < exports@.len() && #[trigger] old(processed)@[k] ==> has_method_for(
                old(methods)@,
                exports@,
                k,
            ),
    ensures
        final(processed)@.len() == exports@.len(),
        forall|k: int|
            0 <= k < exports@.len() && #[trigger] final(processed)@[k] ==> has_method_for(
                final(methods)@,
                exports@,
                k,
            ),
        forall|k: int|
            0 <= k < exports@.len() ==> #[trigger] final(processed)@[k] == (old(processed)@[k]
                || exports_function(exports@, k, index as int)),
        forall|k: int|
            0 <= k < exports@.len() && exports_function(exports@, k, index as int) ==> has_method_for(
                final(methods)@,
                exports@,
                k,
            ),
        final(methods)@.len() >= old(methods)@.len(),
        forall|m: int| 0 <= m < old(methods)@.len() ==> final(methods)@[m] == old(methods)@[m],
        forall|m: int|
            old(methods)@.len() <= m < final(methods)@.len() ==> #[trigger] is_method_of(
                exports@,
                final(methods)@[m],
                index as int,
                return_type,
                offset,
            ),
        forall|m: int|
            old(methods)@.len() <= m < final(methods)@.len() ==> params_fit(
                (#[trigger] final(methods)@[m]).parameters@,
                sig.params@,
            ),
        exists|g: Seq<int>|
            #[trigger] new_sources(
                exports@,
                old(processed)@,
                index as int,
                old(methods)@,
                final(methods)@,
                g,
            ),
        final(features).storage == old(features).storage,
        final(features).payable == (old(features).payable || newly_payable(
            exports@,
            old(processed)@,
            index as int,
        )),
{
    let ghost mut g: Seq<int> = Seq::empty();
    let mut k: usize = 0;
    while k < exports.len()
        invariant
            k <= exports@.len(),
            processed@.len() == exports@.len(),
            forall|j: int|
                0 <= j < exports@.len() ==> #[trigger] processed@[j] == if j < k {
                    old(processed)@[j] || exports_function(exports@, j, index as int)
                } else {
                    old(processed)@[j]
                },
            forall|j: int|
                0 <= j < k && exports_function(exports@, j, index as int) ==> has_method_for(
                    methods@,
                    exports@,
                    j,
                ),
            forall|j: int|
                0 <= j < exports@.len() && #[trigger] processed@[j] ==> has_method_for(
                    methods@,
                    exports@,
                    j,
                ),
            methods@.len() >= old(methods)@.len(),
            forall|m: int| 0 <= m < old(methods)@.len() ==> methods@[m] == old(methods)@[m],
            forall|m: int|
                old(methods)@.len() <= m < methods@.len() ==> #[trigger] is_method_of(
                    exports@,
                    methods@[m],
                    index as int,
                    return_type,
                    offset,
                ),
            forall|m: int|
                old(methods)@.len() <= m < methods@.len() ==> params_fit(
                    (#[trigger] methods@[m]).parameters@,
                    sig.params@,
                ),
            g.len() == methods@.len() - old(methods)@.len(),
            forall|j: int|
                0 <= j < g.len() ==> #[trigger] g[j] < k && exports_function(
                    exports@,
                    g[j],
                    index as int,
                ) && !old(processed)@[g[j]] && methods@[old(methods)@.len() + j].name
                    == exports@[g[j]].name,
            forall|i: int, j: int| 0 <= i < j < g.len() ==> #[trigger] g[i] < #[trigger] g[j],
            forall|k2: int|
                0 <= k2 < k && exports_function(exports@, k2, index as int) && !old(processed)@[k2]
                    ==> exists|j: int| 0 <= j < g.len() && #[trigger] g[j] == k2,
            features.storage == old(features).storage,
            features.payable == (old(features).payable || newly_payable_before(
                exports@,
                old(processed)@,
                index as int,
                k as int,
            )),
        decreases exports@.len() - k,
    {
        if exports[k].index as usize == index {
            if !processed[k] {
                let name = exports[k].name.clone();
                let ghost pay_before = features.payable;
                let name_str = name.as_str();
                features.register_export(name_str);
                proof {
                    assert(name_str@ == exports@[k as int].name@);
                    if features.payable && !pay_before {
                        assert(is_payment_export(exports@[k as int]));
                    }
                }
                let ghost before = methods@;
                let parameters = manifest_parameters(sig);
                methods.push(
                    ManifestMethod {
                        name,
                        parameters,
                        return_type,
                        offset: offset as u32,
                        safe: false,
                    },
                );
                proof {
                    assert(methods@[methods@.len() - 1].name == exports@[k as int].name);
                    assert forall|m: int|
                        old(methods)@.len() <= m < methods@.len() implies params_fit(
                            (#[trigger] methods@[m]).parameters@,
                            sig.params@,
                        ) by {
                        if m < before.len() {
                            assert(methods@[m] == before[m]);
                        } else {
                            assert(methods@[m].parameters == parameters);
                        }
                    }
                    assert forall|m: int|
                        old(methods)@.len() <= m < methods@.len() implies #[trigger] is_method_of(exports@, methods@[m], index as int, return_type, offset) by {
                        if m < before.len() {
                            assert(methods@[m] == before[m]);
                        } else {
                            assert(method_of_export(
                                methods@[m],
                                exports@[k as int],
                                index as int,
                                return_type,
                                offset,
                            ));
                        }
                    }
                    assert forall|j: int|
                        0 <= j < exports@.len() && (j <= k && exports_function(exports@, j, index as int)
                            || processed@[j]) implies has_method_for(methods@, exports@, j) by {
                        if j != k {
                            let m = choose|m: int|
                                0 <= m < before.len() && (#[trigger] before[m]).name == exports@[j].name;
                            assert(methods@[m] == before[m]);
                        } else {
                            assert(methods@[methods@.len() - 1].name == exports@[j].name);
                        }
                    }
                }
                proof {
                    let g0 = g;
                    g = g.push(k as int);
                    assert forall|j: int|
                        0 <= j < g.len() implies #[trigger] g[j] < k + 1 && exports_function(
                        exports@,
                        g[j],
                        index as int,
                    ) && !old(processed)@[g[j]] && methods@[old(methods)@.len() + j].name
                        == exports@[g[j]].name by {
                        if j < g0.len() {
                            assert(g[j] == g0[j]);
                            assert(methods@[old(methods)@.len() + j] == before[old(methods)@.len() + j]);
                        } else {
                            assert(processed@[k as int] == old(processed)@[k as int]);
                        }
                    }
                    assert forall|k2: int|
                        0 <= k2 < k + 1 && exports_function(exports@, k2, index as int) && !old(
                            processed,
                        )@[k2] implies exists|j: int| 0 <= j < g.len() && #[trigger] g[j] == k2 by {
                        if k2 < k {
                            let j = choose|j: int| 0 <= j < g0.len() && #[trigger] g0[j] == k2;
                            assert(g[j] == k2);
                        } else {
                            assert(g[g.len() - 1] == k2);
                        }
                    }
                }
                processed.set(k, true);
            }
        }
        proof {
            assert forall|k2: int|
                0 <= k2 < k + 1 && exports_function(exports@, k2, index as int) && !old(processed)@[k2]
                    implies exists|j: int| 0 <= j < g.len() && #[trigger] g[j] == k2 by {
                if k2 == k && !(exists|j: int| 0 <= j < g.len() && #[trigger] g[j] == k2) {
                    assert(processed@[k as int]);
                }
            }
        }
        k = k + 1;
    }
    proof {
        reveal(new_sources);
        assert(new_sources(exports@, old(processed)@, index as int, old(methods)@, methods@, g));
    }
}

/// Emits the method body of an exported import: it loads the arguments, calls the import and
/// returns. Returns the manifest return type.
#[verifier::spinoff_prover]
#[verifier::rlimit(30)]
pub fn emit_import_export_stub(
    script: &mut Vec<u8>,
    module: &WasmModule,
    import_index: usize,
    features: &mut FeatureTracker,
) -> (r: Result<&'static str, TranslateError>)
    ensures
        import_index >= module.imports@.len() ==> r is Err,
        r matches Ok(kind) ==> {
            let sig = module.types@[module.imports@[import_index as int].type_index as int];
            &&& all_params_integer(sig.params@)
            &&& sig.results@.len() <= 1
            &&& kind@ == (if sig.results@.len() == 0 {
                "Void"@
            } else {
                "Integer"@
            })
            &&& final(script)@.len() > old(script)@.len()
            &&& final(script)@.subrange(0, old(script)@.len() as int) == old(script)@
            &&& final(script)@.last() == RET
        },
        final(features).payable == old(features).payable,
        old(features).storage ==> final(features).storage,
        import_index < module.imports@.len() && module.imports@[import_index as int].type_index
            < module.types@.len() ==> {
            let import = module.imports@[import_index as int];
            let sig = module.types@[import.type_index as int];
            let m = encode_utf8(import.module@);
            let shape_ok = import_index <= u32::MAX && all_params_integer(sig.params@)
                && sig.params@.len() <= 256 && sig.results@.len() <= 1 && (sig.results@.len() == 1
                ==> is_integer(sig.results@[0]));
            &&& (eq_ignore_case(m, "env".spec_bytes()) ==> r is Err)
            &&& (import_index <= u32::MAX && !eq_ignore_case(m, "env".spec_bytes()) && !eq_ignore_case(m, "opcode".spec_bytes())
                && !eq_ignore_case(m, "syscall".spec_bytes()) && !eq_ignore_case(
                m,
                "neo".spec_bytes(),
            ) ==> r is Err)
            &&& (shape_ok && !eq_ignore_case(m, "env".spec_bytes()) && !eq_ignore_case(
                m,
                "opcode".spec_bytes(),
            ) && eq_ignore_case(m, "syscall".spec_bytes()) && spec_lookup(
                encode_utf8(import.name@),
            ) is Some ==> r is Ok && final(features).storage == (old(features).storage
                || is_storage_descriptor(
                spec_lookup(encode_utf8(import.name@))->0.name.spec_bytes(),
            )))
            &&& (shape_ok && !eq_ignore_case(m, "env".spec_bytes()) && !eq_ignore_case(
                m,
                "opcode".spec_bytes(),
            ) && !eq_ignore_case(m, "syscall".spec_bytes()) && eq_ignore_case(m, "neo".spec_bytes())
                && neo_call_service(encode_utf8(import.name@)) is Some ==> r is Ok
                && final(features).storage == (old(features).storage || is_storage_descriptor(
                neo_call_service(encode_utf8(import.name@))->0.name.spec_bytes(),
            )))
        },
{
    if import_index >= module.imports.len() {
        return Err(TranslateError::FunctionIndexOutOfRange { index: import_index as u32 });
    }
    let import = &module.imports[import_index];
    let type_index = import.type_index as usize;
    if type_index >= module.types.len() {
        return Err(TranslateError::InvalidTypeIndex { index: import.type_index });
    }
    let sig = &module.types[type_index];
    let mut p: usize = 0;
    while p < sig.params.len()
        invariant
            import_index < module.imports@.len(),
            *sig == module.types@[module.imports@[import_index as int].type_index as int],
            p <= sig.params@.len(),
            forall|i: int| 0 <= i < p ==> is_integer(#[trigger] sig.params@[i]),
        decreases sig.params@.len() - p,
    {
        if !is_integer_kind(sig.params[p]) {
            proof {
                assert(!is_integer(sig.params@[p as int]));
            }
            return Err(TranslateError::UnsupportedType { kind: sig.params[p] });
        }
        p = p + 1;
    }
    if sig.results.len() > 1 {
        return Err(TranslateError::MultiValueReturn);
    }
    let mut params: Vec<StackValue> = Vec::new();
    let mut i: usize = 0;
    proof {
        assert(script@.subrange(0, old(script)@.len() as int) =~= old(script)@);
    }
    while i < sig.params.len()
        invariant
            import_index < module.imports@.len(),
            *sig == module.types@[module.imports@[import_index as int].type_index as int],
            i <= sig.params@.len(),
            old(script)@.len() <= script@.len(),
            script@.subrange(0, old(script)@.len() as int) == old(script)@,
            forall|k: int| 0 <= k < params@.len() ==> (#[trigger] params@[k]).bytecode_start is None,
        decreases sig.params@.len() - i,
    {
        if i > 255 {
            return Err(TranslateError::SlotIndexTooLarge { index: i as u32 });
        }
        let ghost before = script@;
        emit_load_arg(script, i as u32)?;
        proof {
            assert(script@.subrange(0, old(script)@.len() as int) =~= before.subrange(
                0,
                old(script)@.len() as int,
            ));
        }
        params.push(StackValue::unknown());
        i = i + 1;
    }
    if str_eq_ignore_case(import.module.as_str(), "env") {
        return Err(env_import_error(import));
    }
    let ghost before_call = script@;
    handle_import_call(
        import_index as u32,
        script,
        &module.imports,
        &module.types,
        &params,
        features,
    )?;
    proof {
        let l = old(script)@.len() as int;
        assert(values_after(params@, l));
        assert(keeps_prefix(before_call, script@, l));
    }
    script.push(RET);
    proof {
        assert(script@.subrange(0, old(script)@.len() as int) =~= old(script)@);
    }
    if sig.results.len() == 1 {
        wasm_val_type_to_manifest(sig.results[0])
    } else {
        Ok("Void")
    }
}

/// Whether every parameter type is i32 or i64.
pub open spec fn all_params_integer(kinds: Seq<crate::module::ValKind>) -> bool {
    forall|i: int| 0 <= i < kinds.len() ==> is_integer(#[trigger] kinds[i])
}

/// Checks the start function: it takes no parameters and returns nothing. A start function
/// that is an import records the services it uses.
pub fn resolve_start_descriptor(module: &WasmModule, features: &mut FeatureTracker) -> (r: Result<
    (),
    TranslateError,
>)
    ensures
        final(features).payable == old(features).payable,
        module.start is None ==> r is Ok && *final(features) == *old(features),
        module.start matches Some(s) ==> match start_type_index(*module, s) {
            None => r is Err,
            Some(ti) => if ti >= module.types@.len() {
                r is Err
            } else if module.types@[ti as int].params@.len() > 0
                || module.types@[ti as int].results@.len() > 0 {
                r == Err::<(), TranslateError>(TranslateError::StartSignature)
            } else if s < module.imports@.len() {
                (r is Ok <==> registered_service(module.imports@[s as int]) is Ok) && (r is Ok
                    ==> final(features).storage == (old(features).storage || (registered_service(
                    module.imports@[s as int],
                )->Ok_0 matches Some(d) && is_storage_descriptor(d))))
            } else {
                r is Ok && *final(features) == *old(features)
            },
        },
{
    let start = match module.start {
        Some(s) => s,
        None => {
            return Ok(());
        },
    };
    let n = module.imports.len();
    let type_index = if (start as usize) < n {
        module.imports[start as usize].type_index
    } else {
        let defined = (start as usize) - n;
        if defined >= module.functions.len() {
            return Err(TranslateError::MissingFunctionType { index: start as usize });
        }
        module.functions[defined]
    };
    if type_index as usize >= module.types.len() {
        return Err(TranslateError::InvalidTypeIndex { index: type_index });
    }
    let sig = &module.types[type_index as usize];
    if sig.params.len() > 0 || sig.results.len() > 0 {
        return Err(TranslateError::StartSignature);
    }
    if (start as usize) < n {
        register_import_features(&module.imports[start as usize], features)?;
    }
    Ok(())
}

/// The type index of function `index` of a module: that of the import, or of the defined
/// function; `None` when there is no such function.
pub open spec fn start_type_index(module: WasmModule, index: u32) -> Option<u32> {
    if index < module.imports@.len() {
        Some(module.imports@[index as int].type_index)
    } else if index - module.imports@.len() < module.functions@.len() {
        Some(module.functions@[index - module.imports@.len()])
    } else {
        None
    }
}

/// Whether method `m` is named as one of the exports.
pub open spec fn named_by_export(exports: Seq<FunctionExport>, m: ManifestMethod) -> bool {
    exists|k: int| 0 <= k < exports.len() && m.name == (#[trigger] exports[k]).name
}

/// The names of the exports not yet given a method, in lexicographic order.
pub fn missing_export_names(exports: &Vec<FunctionExport>, processed: &Vec<bool>) -> (r: Vec<String>)
    requires
        processed@.len() == exports@.len(),
    ensures
        strings_sorted(r@),
        r@.len() == 0 <==> forall|k: int| 0 <= k < exports@.len() ==> #[trigger] processed@[k],
{
    let mut names: Vec<String> = Vec::new();
    let mut k: usize = 0;
    while k < exports.len()
        invariant
            k <= exports@.len(),
            processed@.len() == exports@.len(),
            names@.len() == 0 <==> forall|j: int| 0 <= j < k ==> #[trigger] processed@[j],
        decreases exports@.len() - k,
    {
        if !processed[k] {
            names.push(exports[k].name.clone());
        }
        k = k + 1;
    }
    let sorted = sort_strings(names);
    proof {
        vstd::seq_lib::to_multiset_len(names@);
        vstd::seq_lib::to_multiset_len(sorted@);
    }
    sorted
}

/// What a translation of `module` with `config` is: a method for each export and one for no
/// other name, each at the code offset of its export's function and with that function's
/// parameters and return type, the defined functions' code in order, the contract calls of
/// its script, `payable` exactly when an export is a payment hook, `storage` whenever an
/// exported `syscall` import of a storage service gets a stub, and, as safe methods, the first method of each name that an overlay marks safe, every
/// such name having a method.
pub open spec fn translation_of(module: WasmModule, config: TranslationConfig, t: Translation) -> bool {
    &&& t.contract_name == config.contract_name
    &&& t.methods@.len() > 0
    &&& forall|k: int|
        0 <= k < module.exports@.len() ==> has_method_for(t.methods@, module.exports@, k)
    &&& forall|m: int|
        0 <= m < t.methods@.len() ==> named_by_export(module.exports@, #[trigger] t.methods@[m])
    &&& forall|m: int| 0 <= m < t.methods@.len() ==> (#[trigger] t.methods@[m]).offset < t.script@.len()
    &&& exists|offs: Seq<int>| #[trigger] laid_out(module, t, offs)
    &&& t.methods@.len() == module.exports@.len()
    &&& exists|src: Seq<int>| #[trigger] method_sources(module.exports@, t.methods@, src)
    &&& forall|i: int| #[trigger] storage_stub(module, i) ==> has_feature(t.features@, "storage"@)
    &&& toks(t.method_tokens@) == spec_contract_tokens(t.script@)
    &&& (exists|k: int|
        0 <= k < module.exports@.len() && is_payment_export(#[trigger] module.exports@[k]))
        <==> has_feature(t.features@, "payable"@)
    &&& forall|n: Seq<char>|
        #[trigger] overlays_mark_safe(
            config.manifest_overlays@,
            n,
            config.manifest_overlays@.len() as int,
        ) ==> method_named(t.methods@, n)
    &&& forall|m: int|
        0 <= m < t.methods@.len() ==> ((#[trigger] t.methods@[m]).safe <==> (
        overlays_mark_safe(
            config.manifest_overlays@,
            t.methods@[m].name@,
            config.manifest_overlays@.len() as int,
        ) && first_named(t.methods@, m, t.methods@[m].name@)))
}

/// Whether import `i` of `module` is exported, and is a `syscall` import of a storage service
/// or a `neo` alias of one, with a signature its stub can take: its stub enables the storage
/// feature.
pub open spec fn storage_stub(module: WasmModule, i: int) -> bool {
    let import = module.imports@[i];
    let ti = import.type_index as int;
    let sig = module.types@[ti];
    let m = encode_utf8(import.module@);
    &&& 0 <= i < module.imports@.len()
    &&& i <= u32::MAX
    &&& exists|k: int| #[trigger] exports_function(module.exports@, k, i)
    &&& ti < module.types@.len()
    &&& all_params_integer(sig.params@)
    &&& sig.params@.len() <= 256
    &&& sig.results@.len() <= 1
    &&& (sig.results@.len() == 1 ==> is_integer(sig.results@[0]))
    &&& !eq_ignore_case(m, "env".spec_bytes())
    &&& !eq_ignore_case(m, "opcode".spec_bytes())
    &&& ({
        ||| eq_ignore_case(m, "syscall".spec_bytes()) && spec_lookup(encode_utf8(import.name@))
            is Some && is_storage_descriptor(
            spec_lookup(encode_utf8(import.name@))->0.name.spec_bytes(),
        )
        ||| !eq_ignore_case(m, "syscall".spec_bytes()) && eq_ignore_case(m, "neo".spec_bytes())
            && neo_call_service(encode_utf8(import.name@)) is Some && is_storage_descriptor(
            neo_call_service(encode_utf8(import.name@))->0.name.spec_bytes(),
        )
    })
}

/// Whether import `i` gets a stub that calls a known interop service of the `syscall` module
/// with integer arguments and at most one integer result.
pub open spec fn syscall_stub(module: WasmModule, i: int) -> bool {
    let import = module.imports@[i];
    let ti = import.type_index as int;
    let sig = module.types@[ti];
    let m = encode_utf8(import.module@);
    &&& 0 <= i < module.imports@.len()
    &&& i <= u32::MAX
    &&& ti < module.types@.len()
    &&& all_params_integer(sig.params@)
    &&& sig.params@.len() <= 256
    &&& sig.results@.len() <= 1
    &&& (sig.results@.len() == 1 ==> is_integer(sig.results@[0]))
    &&& !eq_ignore_case(m, "env".spec_bytes())
    &&& !eq_ignore_case(m, "opcode".spec_bytes())
    &&& eq_ignore_case(m, "syscall".spec_bytes())
    &&& spec_lookup(encode_utf8(import.name@)) is Some
}

/// Whether a module is made of exported `syscall` imports only: no code, no start function,
/// every export an import that gets a stub, and every name an overlay marks safe exported.
#[verifier::opaque]
pub open spec fn syscall_stub_module(module: WasmModule, config: TranslationConfig) -> bool {
    &&& module.bodies@.len() == 0
    &&& module.start is None
    &&& module.exports@.len() > 0
    &&& module.imports@.len() + module.functions@.len() <= usize::MAX
    &&& forall|k: int|
        0 <= k < module.exports@.len() ==> (#[trigger] module.exports@[k]).index
            < module.imports@.len() && syscall_stub(module, module.exports@[k].index as int)
    &&& forall|n: Seq<char>|
        #[trigger] overlays_mark_safe(
            config.manifest_overlays@,
            n,
            config.manifest_overlays@.len() as int,
        ) ==> export_named(module.exports@, n)
}

/// What a module of exported `syscall` imports is made of.
proof fn lemma_stub_module_shape(module: WasmModule, config: TranslationConfig)
    requires
        syscall_stub_module(module, config),
    ensures
        module.bodies@.len() == 0,
        module.start is None,
        module.imports@.len() + module.functions@.len() <= usize::MAX,
        forall|k: int|
            0 <= k < module.exports@.len() && (#[trigger] module.exports@[k]).index
                < module.imports@.len() ==> syscall_stub(module, module.exports@[k].index as int),
        forall|n: Seq<char>|
            #[trigger] overlays_mark_safe(
                config.manifest_overlays@,
                n,
                config.manifest_overlays@.len() as int,
            ) ==> export_named(module.exports@, n),
{
    reveal(syscall_stub_module);
}

/// In a module of exported `syscall` imports, once each import's exports are processed, every
/// export is, some export is an import, and there are methods.
proof fn lemma_stub_module_processed(
    module: WasmModule,
    config: TranslationConfig,
    processed: Seq<bool>,
    methods: Seq<ManifestMethod>,
)
    requires
        syscall_stub_module(module, config),
        processed.len() == module.exports@.len(),
        forall|k: int|
            0 <= k < module.exports@.len() && (#[trigger] module.exports@[k]).index
                < module.imports@.len() ==> processed[k],
        forall|k: int|
            0 <= k < module.exports@.len() && #[trigger] processed[k] ==> has_method_for(
                methods,
                module.exports@,
                k,
            ),
    ensures
        forall|k: int| 0 <= k < module.exports@.len() ==> #[trigger] processed[k],
        exists|k: int| 0 <= k < module.exports@.len() && (#[trigger] module.exports@[k]).index
            < module.imports@.len(),
        methods.len() > 0,
        module.start is None,
        forall|n: Seq<char>|
            #[trigger] overlays_mark_safe(
                config.manifest_overlays@,
                n,
                config.manifest_overlays@.len() as int,
            ) ==> export_named(module.exports@, n),
{
    reveal(syscall_stub_module);
    assert(module.exports@[0].index < module.imports@.len());
    assert forall|k: int| 0 <= k < module.exports@.len() implies #[trigger] processed[k] by {
        assert(module.exports@[k].index < module.imports@.len());
    }
    assert(has_method_for(methods, module.exports@, 0));
}


/// Whether a module translates as straight-line integer code: it has no imports, no start
/// function and a code section; no overlays are applied; every export names one of its
/// function bodies; and every body is straight-line integer code whose locals leave room in
/// INITSLOT.
pub open spec fn straight_line_module(module: WasmModule, config: TranslationConfig) -> bool {
    &&& module.imports@.len() == 0
    &&& module.start is None
    &&& module.has_code_section
    &&& module.exports@.len() > 0
    &&& config.manifest_overlays@.len() == 0
    &&& module.bodies@.len() <= module.functions@.len()
    &&& forall|k: int|
        0 <= k < module.exports@.len() ==> (#[trigger] module.exports@[k]).index
            < module.bodies@.len()
    &&& forall|d: int| 0 <= d < module.bodies@.len() ==> #[trigger] straight_line_body(module, d)
}

/// Whether body `d` of a module is straight-line integer code with room for one more local.
pub open spec fn straight_line_body(module: WasmModule, d: int) -> bool {
    let ti = module.functions@[d];
    let body = module.bodies@[d];
    &&& ti < module.types@.len()
    &&& ({
        let sig = module.types@[ti as int];
        &&& all_params_integer(sig.params@)
        &&& sig.results@.len() <= 1
        &&& (sig.results@.len() == 1 ==> is_integer(sig.results@[0]))
        &&& sig.params@.len() <= 255
        &&& locals_integer(body.locals@)
        &&& declared_local_count(body.locals@) <= 254
        &&& straight_line(
            body.ops@,
            0,
            sig.params@.len() + declared_local_count(body.locals@),
            sig.results@.len() as int,
        )
    })
}

/// Marks safe, among methods named by the exports, the first method of each name that an
/// overlay marks safe; fails, naming them in order, when an overlay marks safe a name that no
/// export has.
#[verifier::spinoff_prover]
#[verifier::rlimit(60)]
fn apply_safe_overlays(
    overlays: &Vec<JsonValue>,
    exports: &Vec<FunctionExport>,
    methods: &mut Vec<ManifestMethod>,
) -> (r: Result<(), TranslateError>)
    requires
        forall|m: int|
            0 <= m < old(methods)@.len() ==> named_by_export(exports@, #[trigger] old(methods)@[m]),
        forall|k: int| 0 <= k < exports@.len() ==> has_method_for(old(methods)@, exports@, k),
        forall|m: int| 0 <= m < old(methods)@.len() ==> !(#[trigger] old(methods)@[m]).safe,
    ensures
        final(methods)@.len() == old(methods)@.len(),
        forall|m: int|
            0 <= m < old(methods)@.len() ==> {
                &&& (#[trigger] final(methods)@[m]).name == old(methods)@[m].name
                &&& final(methods)@[m].parameters == old(methods)@[m].parameters
                &&& final(methods)@[m].return_type == old(methods)@[m].return_type
                &&& final(methods)@[m].offset == old(methods)@[m].offset
            },
        r is Ok <==> forall|n: Seq<char>|
            #[trigger] overlays_mark_safe(overlays@, n, overlays@.len() as int) ==> export_named(
                exports@,
                n,
            ),
        r is Ok ==> forall|n: Seq<char>|
            #[trigger] overlays_mark_safe(overlays@, n, overlays@.len() as int) ==> method_named(
                final(methods)@,
                n,
            ),
        r is Ok ==> forall|m: int|
            0 <= m < final(methods)@.len() ==> ((#[trigger] final(methods)@[m]).safe <==> (
            overlays_mark_safe(overlays@, final(methods)@[m].name@, overlays@.len() as int)
                && first_named(final(methods)@, m, final(methods)@[m].name@))),
        forall|m: int|
            0 <= m < final(methods)@.len() ==> named_by_export(exports@, #[trigger] final(methods)@[m]),
        forall|k: int| 0 <= k < exports@.len() ==> has_method_for(final(methods)@, exports@, k),
        r matches Err(e) ==> e matches TranslateError::UnexportedSafeMethods { names } && strings_sorted(
            names@,
        ) && forall|n: Seq<char>|
            #[trigger] holds_name(names@, n) <==> (overlays_mark_safe(
                overlays@,
                n,
                overlays@.len() as int,
            ) && !export_named(exports@, n)),
{
    let mut safe: Vec<String> = Vec::new();
    let mut o: usize = 0;
    while o < overlays.len()
        invariant
            o <= overlays@.len(),
            overlays@.len() == 0 ==> safe@.len() == 0,
            distinct_names(safe@),
            forall|n: Seq<char>|
                #[trigger] holds_name(safe@, n) <==> overlays_mark_safe(
                    overlays@,
                    n,
                    o as int,
                ),
        decreases overlays@.len() - o,
    {
        collect_safe_methods(&overlays[o], &mut safe);
        proof {
            assert forall|n: Seq<char>| #[trigger] holds_name(safe@, n) <==> overlays_mark_safe(
                overlays@,
                n,
                o + 1,
            ) by {
                if overlays_mark_safe(overlays@, n, o + 1) {
                    let w = choose|w: int|
                        0 <= w < o + 1 && #[trigger] marks_safe(overlays@[w], n);
                    if w < o {
                        assert(overlays_mark_safe(overlays@, n, o as int));
                    }
                }
                if overlays_mark_safe(overlays@, n, o as int) {
                    let w = choose|w: int|
                        0 <= w < o && #[trigger] marks_safe(overlays@[w], n);
                    assert(overlays_mark_safe(overlays@, n, o + 1));
                }
                if marks_safe(overlays@[o as int], n) {
                    assert(overlays_mark_safe(overlays@, n, o + 1));
                }
            }
        }
        o = o + 1;
    }
    let ghost unmarked = methods@;
    let ghost safe_names = safe@;
    proof {
        assert forall|n: Seq<char>| #[trigger] method_named(unmarked, n) <==> export_named(
            exports@,
            n,
        ) by {
            if method_named(unmarked, n) {
                let m = choose|m: int| 0 <= m < unmarked.len() && (#[trigger] unmarked[m]).name@ == n;
                assert(named_by_export(exports@, unmarked[m]));
                let k = choose|k: int|
                    0 <= k < exports@.len() && unmarked[m].name == (
                    #[trigger] exports@[k]).name;
                assert(exports@[k].name@ == n);
            }
            if export_named(exports@, n) {
                let k = choose|k: int|
                    0 <= k < exports@.len() && (#[trigger] exports@[k]).name@ == n;
                assert(has_method_for(unmarked, exports@, k));
                let m = choose|m: int|
                    0 <= m < unmarked.len() && (#[trigger] unmarked[m]).name == exports@[k].name;
                assert(unmarked[m].name@ == n);
            }
        }
    }
    let r = mark_safe_methods(methods, safe);
    proof {
        assert forall|m: int| 0 <= m < methods@.len() implies named_by_export(
            exports@,
            #[trigger] methods@[m],
        ) by {
            assert(methods@[m].name == unmarked[m].name);
            assert(named_by_export(exports@, unmarked[m]));
            let k = choose|k: int|
                0 <= k < exports@.len() && unmarked[m].name == (#[trigger] exports@[k]).name;
            assert(methods@[m].name == exports@[k].name);
        }
        assert forall|k: int| 0 <= k < exports@.len() implies has_method_for(
            methods@,
            exports@,
            k,
        ) by {
            assert(has_method_for(unmarked, exports@, k));
            let m = choose|m: int|
                0 <= m < unmarked.len() && (#[trigger] unmarked[m]).name == exports@[k].name;
            assert(methods@[m].name == unmarked[m].name);
        }
    }
    proof {
        assert((forall|q: int| 0 <= q < safe_names.len() ==> #[trigger] method_named(unmarked, safe_names[q]@))
            <==> forall|n: Seq<char>|
            #[trigger] overlays_mark_safe(overlays@, n, overlays@.len() as int) ==> export_named(
                exports@,
                n,
            )) by {
            if forall|q: int| 0 <= q < safe_names.len() ==> #[trigger] method_named(unmarked, safe_names[q]@) {
                assert forall|n: Seq<char>|
                    #[trigger] overlays_mark_safe(overlays@, n, overlays@.len() as int) implies export_named(
                    exports@,
                    n,
                ) by {
                    assert(holds_name(safe_names, n));
                    let q = choose|q: int| 0 <= q < safe_names.len() && (#[trigger] safe_names[q])@ == n;
                    assert(method_named(unmarked, safe_names[q]@));
                }
            }
            if forall|n: Seq<char>|
                #[trigger] overlays_mark_safe(overlays@, n, overlays@.len() as int) ==> export_named(
                    exports@,
                    n,
                ) {
                assert forall|q: int| 0 <= q < safe_names.len() implies #[trigger] method_named(
                    unmarked,
                    safe_names[q]@,
                ) by {
                    assert(holds_name(safe_names, safe_names[q]@));
                    assert(overlays_mark_safe(overlays@, safe_names[q]@, overlays@.len() as int));
                }
            }
        }
    }
    if r.is_err() {
        return r;
    }
    proof {
        assert forall|n: Seq<char>|
            #[trigger] overlays_mark_safe(
                overlays@,
                n,
                overlays@.len() as int,
            ) implies method_named(methods@, n) by {
            assert(holds_name(safe_names, n));
            let q = choose|q: int| 0 <= q < safe_names.len() && (#[trigger] safe_names[q])@ == n;
            assert(method_named(unmarked, safe_names[q]@));
            let k = choose|k: int| 0 <= k < unmarked.len() && (#[trigger] unmarked[k]).name@ == n;
            assert(methods@[k].name == unmarked[k].name);
        }
        assert forall|m: int| 0 <= m < methods@.len() implies ((#[trigger] methods@[m]).safe <==> (
            overlays_mark_safe(
                overlays@,
                methods@[m].name@,
                overlays@.len() as int,
            ) && first_named(methods@, m, methods@[m].name@))) by {
            assert(methods@[m].name == unmarked[m].name);
            assert(!unmarked[m].safe);
            let n = methods@[m].name@;
            assert forall|j: int| 0 <= j < m implies (#[trigger] methods@[j]).name@ == unmarked[j].name@ by {
                assert(methods@[j].name == unmarked[j].name);
            }
            if first_named(unmarked, m, n) {
                assert forall|j: int| 0 <= j < m implies (#[trigger] methods@[j]).name@ != n by {
                    assert(unmarked[j].name@ != n);
                }
            }
            if first_named(methods@, m, n) {
                assert forall|j: int| 0 <= j < m implies (#[trigger] unmarked[j]).name@ != n by {
                    assert(methods@[j].name@ != n);
                }
            }
            assert(first_named(methods@, m, n) == first_named(unmarked, m, unmarked[m].name@));
        }
    }
    r
}

/// Gives each export of an imported function a stub at the end of the script, with its
/// methods, in the order of the imports.
#[verifier::spinoff_prover]
#[verifier::rlimit(80)]
fn emit_export_stubs(
    module: &WasmModule,
    script: &mut Vec<u8>,
    features: &mut FeatureTracker,
    methods: &mut Vec<ManifestMethod>,
    processed: &mut Vec<bool>,
    Ghost(offs0): Ghost<Seq<int>>,
    Ghost(src0): Ghost<Seq<int>>,
) -> (r: Result<(Ghost<Seq<int>>, Ghost<Seq<int>>), TranslateError>)
    requires
        offs0.len() == module.imports@.len() + module.functions@.len(),
        module.bodies@.len() <= module.functions@.len(),
        forall|k: int|
            0 <= k < module.exports@.len() && (#[trigger] module.exports@[k]).index
                < module.imports@.len() ==> !old(processed)@[k],
        sources_track(module.exports@, old(methods)@, old(processed)@, src0),
        all_placed(
            *module,
            offs0,
            old(methods)@,
            module.imports@.len() as int,
            (module.imports@.len() + module.bodies@.len()) as int,
            0,
            0,
        ),
        old(processed)@.len() == module.exports@.len(),
        forall|k: int|
            0 <= k < module.exports@.len() && #[trigger] old(processed)@[k] ==> has_method_for(
                old(methods)@,
                module.exports@,
                k,
            ),
        forall|m: int|
            0 <= m < old(methods)@.len() ==> named_by_export(module.exports@, #[trigger] old(methods)@[m]),
        forall|m: int| 0 <= m < old(methods)@.len() ==> !(#[trigger] old(methods)@[m]).safe,
        forall|m: int|
            0 <= m < old(methods)@.len() ==> (#[trigger] old(methods)@[m]).offset < old(script)@.len(),
        old(features).payable == payable_among(module.exports@, old(processed)@),
        module.bodies@.len() > 0 ==> offs0[module.imports@.len() as int] == 0,
        forall|d1: int, d2: int|
            0 <= d1 < d2 < module.bodies@.len() ==> #[trigger] offs0[module.imports@.len() + d1]
                < #[trigger] offs0[module.imports@.len() + d2],
        forall|d1: int|
            0 <= d1 < module.bodies@.len() ==> #[trigger] offs0[module.imports@.len() + d1]
                < old(script)@.len(),
    ensures
        (forall|k: int|
            0 <= k < module.exports@.len() ==> (#[trigger] module.exports@[k]).index
                >= module.imports@.len()) ==> r is Ok && final(processed)@ == old(processed)@,
        (forall|k: int|
            0 <= k < module.exports@.len() && (#[trigger] module.exports@[k]).index
                < module.imports@.len() ==> syscall_stub(*module, module.exports@[k].index as int))
            ==> r is Ok,
        r is Ok ==> forall|k: int|
            0 <= k < module.exports@.len() && (#[trigger] module.exports@[k]).index
                < module.imports@.len() ==> final(processed)@[k],
        r matches Ok((offs, src)) ==> {
            let ni = module.imports@.len() as int;
            &&& offs@.len() == offs0.len()
            &&& module.bodies@.len() > 0 ==> offs@[ni] == 0
            &&& forall|d1: int, d2: int|
                0 <= d1 < d2 < module.bodies@.len() ==> #[trigger] offs@[ni + d1] < #[trigger] offs@[ni
                    + d2]
            &&& forall|d1: int|
                0 <= d1 < module.bodies@.len() ==> #[trigger] offs@[ni + d1] < final(script)@.len()
            &&& sources_track(module.exports@, final(methods)@, final(processed)@, src@)
            &&& all_placed(
                *module,
                offs@,
                final(methods)@,
                ni,
                ni + module.bodies@.len(),
                0,
                ni,
            )
            &&& final(script)@.len() >= old(script)@.len()
            &&& final(processed)@.len() == module.exports@.len()
            &&& forall|k: int|
                0 <= k < module.exports@.len() && #[trigger] old(processed)@[k] ==> final(processed)@[k]
            &&& forall|k: int|
                0 <= k < module.exports@.len() && #[trigger] final(processed)@[k] ==> has_method_for(
                    final(methods)@,
                    module.exports@,
                    k,
                )
            &&& forall|m: int|
                0 <= m < final(methods)@.len() ==> named_by_export(
                    module.exports@,
                    #[trigger] final(methods)@[m],
                )
            &&& forall|m: int| 0 <= m < final(methods)@.len() ==> !(#[trigger] final(methods)@[m]).safe
            &&& forall|m: int|
                0 <= m < final(methods)@.len() ==> (#[trigger] final(methods)@[m]).offset
                    < final(script)@.len()
            &&& final(features).payable == payable_among(module.exports@, final(processed)@)
            &&& forall|i: int| 0 <= i < ni && #[trigger] storage_stub(*module, i) ==> final(features).storage
        },
{
    let n_imports = module.imports.len();
    let ghost ni = n_imports as int;
    let ghost mut offs = offs0;
    let ghost mut src = src0;
    let ghost all_stubs = forall|k: int|
        0 <= k < module.exports@.len() && (#[trigger] module.exports@[k]).index < module.imports@.len()
            ==> syscall_stub(*module, module.exports@[k].index as int);
    let mut imp: usize = 0;
    while imp < n_imports
        invariant
            imp <= n_imports,
            n_imports == module.imports@.len(),
            ni == n_imports,
            all_stubs == forall|k: int|
                0 <= k < module.exports@.len() && (#[trigger] module.exports@[k]).index
                    < module.imports@.len() ==> syscall_stub(*module, module.exports@[k].index as int),
            offs.len() == offs0.len(),
            offs0.len() == module.imports@.len() + module.functions@.len(),
            forall|i: int| ni <= i < offs0.len() ==> offs[i] == offs0[i],
            forall|k: int|
                0 <= k < module.exports@.len() && imp <= (#[trigger] module.exports@[k]).index
                    < ni ==> !processed@[k],
            forall|k: int| 0 <= k < module.exports@.len() && #[trigger] old(processed)@[k] ==> processed@[k],
            (forall|k: int|
                0 <= k < module.exports@.len() ==> (#[trigger] module.exports@[k]).index >= ni)
                ==> processed@ == old(processed)@,
            forall|i: int| 0 <= i < imp && #[trigger] storage_stub(*module, i) ==> features.storage,
            forall|k: int|
                0 <= k < module.exports@.len() && (#[trigger] module.exports@[k]).index < imp
                    ==> processed@[k],
            sources_track(module.exports@, methods@, processed@, src),
            all_placed(*module, offs, methods@, ni, ni + module.bodies@.len(), 0, imp as int),
            script@.len() >= old(script)@.len(),
            processed@.len() == module.exports@.len(),
            forall|k: int|
                0 <= k < module.exports@.len() && #[trigger] processed@[k] ==> has_method_for(
                    methods@,
                    module.exports@,
                    k,
                ),
            forall|m: int|
                0 <= m < methods@.len() ==> named_by_export(module.exports@, #[trigger] methods@[m]),
            forall|m: int| 0 <= m < methods@.len() ==> !(#[trigger] methods@[m]).safe,
            forall|m: int| 0 <= m < methods@.len() ==> (#[trigger] methods@[m]).offset < script@.len(),
            features.payable == payable_among(module.exports@, processed@),
        decreases n_imports - imp,
    {
        if pending_export_of(&module.exports, &processed, imp) {
            proof {
                if all_stubs {
                    let k = choose|k: int|
                        exports_function(module.exports@, k, imp as int) && !processed@[k];
                    assert(module.exports@[k].index < module.imports@.len());
                    assert(syscall_stub(*module, imp as int));
                }
            }
            let type_index = module.imports[imp].type_index;
            if type_index as usize >= module.types.len() {
                return Err(TranslateError::InvalidTypeIndex { index: type_index });
            }
            let sig = &module.types[type_index as usize];
            if sig.results.len() > 1 {
                return Err(TranslateError::MultiValueReturn);
            }
            let offset = script.len();
            proof {
                lemma_placed_update(
                    *module,
                    offs,
                    methods@,
                    ni,
                    ni + module.bodies@.len(),
                    0,
                    imp as int,
                    imp as int,
                    offset as int,
                );
                offs = offs.update(imp as int, offset as int);
                lemma_placed_widen(
                    *module,
                    offs,
                    methods@,
                    ni,
                    ni + module.bodies@.len(),
                    0,
                    imp as int,
                    ni + module.bodies@.len(),
                    imp + 1,
                );
            }
            let return_type = emit_import_export_stub(script, module, imp, features)?;
            let ghost before = methods@;
            let ghost old_p = processed@;
            let ghost old_pay = features.payable;
            record_methods(
                &module.exports,
                processed,
                imp,
                sig,
                return_type,
                offset,
                methods,
                features,
            );
            proof {
                lemma_new_methods_named(module.exports@, before, methods@, imp as int, return_type, offset);
                lemma_new_methods_unsafe(module.exports@, before, methods@, imp as int, return_type, offset);
                lemma_payable_tracks(module.exports@, old_p, processed@, imp as int, old_pay, features.payable);
                let g = choose|g: Seq<int>|
                    #[trigger] new_sources(module.exports@, old_p, imp as int, before, methods@, g);
                lemma_track_extend(module.exports@, old_p, processed@, imp as int, before, methods@, src, g);
                src = src + g;
                lemma_new_methods_inside(module.exports@, before, methods@, imp as int, return_type, offset, script@.len());
                assert(function_type_index(*module, imp as int) == type_index);
                lemma_placed_append(
                    *module,
                    offs,
                    before,
                    methods@,
                    ni,
                    ni + module.bodies@.len(),
                    0,
                    imp + 1,
                    imp as int,
                    return_type,
                    offset,
                );
            }
        } else {
            proof {
                lemma_placed_widen(
                    *module,
                    offs,
                    methods@,
                    ni,
                    ni + module.bodies@.len(),
                    0,
                    imp as int,
                    ni + module.bodies@.len(),
                    imp + 1,
                );
            }
        }
        imp = imp + 1;
    }
    proof {
        assert forall|d1: int| 0 <= d1 < module.bodies@.len() implies #[trigger] offs[ni + d1]
            < script@.len() by {
            assert(offs[ni + d1] == offs0[ni + d1]);
        }
        assert forall|d1: int, d2: int| 0 <= d1 < d2 < module.bodies@.len() implies #[trigger] offs[ni
            + d1] < #[trigger] offs[ni + d2] by {
            assert(offs[ni + d1] == offs0[ni + d1]);
            assert(offs[ni + d2] == offs0[ni + d2]);
        }
        if module.bodies@.len() > 0 {
            assert(offs[ni] == offs0[ni]);
        }
    }
    Ok((Ghost(offs), Ghost(src)))
}

/// Translates the defined functions' bodies in order, each at the end of the script, with
/// the methods of its exports.
#[verifier::spinoff_prover]
#[verifier::rlimit(100)]
fn translate_bodies(
    module: &WasmModule,
    config: &TranslationConfig,
    script: &mut Vec<u8>,
    registry: &mut FunctionRegistry,
    features: &mut FeatureTracker,
    methods: &mut Vec<ManifestMethod>,
    processed: &mut Vec<bool>,
    Ghost(offs0): Ghost<Seq<int>>,
    Ghost(src0): Ghost<Seq<int>>,
) -> (r: Result<(Ghost<Seq<int>>, Ghost<Seq<int>>), TranslateError>)
    requires
        module.imports@.len() + module.functions@.len() <= usize::MAX,
        offs0.len() == module.imports@.len() + module.functions@.len(),
        old(script)@.len() == 0,
        old(methods)@.len() == 0,
        old(processed)@.len() == module.exports@.len(),
        forall|k: int| 0 <= k < module.exports@.len() ==> !#[trigger] old(processed)@[k],
        sources_track(module.exports@, old(methods)@, old(processed)@, src0),
        old(registry).offsets@.len() == module.imports@.len() + module.functions@.len(),
        old(registry).pending@.len() == 0,
        old(features).payable == payable_among(module.exports@, old(processed)@),
    ensures
        module.bodies@.len() == 0 ==> r is Ok,
        r is Ok && module.bodies@.len() == 0 ==> final(registry).pending@.len() == 0,
        straight_line_module(*module, *config) ==> r is Ok,
        r matches Ok((offs, src)) ==> {
            let ni = module.imports@.len() as int;
            &&& offs@.len() == offs0.len()
            &&& module.bodies@.len() <= module.functions@.len()
            &&& module.bodies@.len() > 0 ==> offs@[ni] == 0
            &&& forall|d1: int, d2: int|
                0 <= d1 < d2 < module.bodies@.len() ==> #[trigger] offs@[ni + d1] < #[trigger] offs@[ni
                    + d2]
            &&& forall|d1: int|
                0 <= d1 < module.bodies@.len() ==> #[trigger] offs@[ni + d1] < final(script)@.len()
            &&& sources_track(module.exports@, final(methods)@, final(processed)@, src@)
            &&& forall|d2: int|
                0 <= d2 < module.bodies@.len() ==> !#[trigger] reaches_unsupported(
                    module.bodies@[d2].ops@,
                )
            &&& forall|k: int|
                0 <= k < module.exports@.len() && (#[trigger] module.exports@[k]).index < ni
                    ==> !final(processed)@[k]
            &&& all_placed(*module, offs@, final(methods)@, ni, ni + module.bodies@.len(), 0, 0)
            &&& final(registry).offsets@.len() == offs0.len()
            &&& straight_line_module(*module, *config) ==> final(registry).pending@.len() == 0
            &&& straight_line_module(*module, *config) ==> forall|k: int|
                0 <= k < module.exports@.len() && (#[trigger] module.exports@[k]).index
                    < module.bodies@.len() ==> final(processed)@[k]
            &&& final(processed)@.len() == module.exports@.len()
            &&& forall|k: int|
                0 <= k < module.exports@.len() && #[trigger] final(processed)@[k] ==> has_method_for(
                    final(methods)@,
                    module.exports@,
                    k,
                )
            &&& forall|m: int|
                0 <= m < final(methods)@.len() ==> named_by_export(
                    module.exports@,
                    #[trigger] final(methods)@[m],
                )
            &&& forall|m: int| 0 <= m < final(methods)@.len() ==> !(#[trigger] final(methods)@[m]).safe
            &&& forall|m: int|
                0 <= m < final(methods)@.len() ==> (#[trigger] final(methods)@[m]).offset
                    < final(script)@.len()
            &&& final(features).payable == payable_among(module.exports@, final(processed)@)
        },
{
    let n_imports = module.imports.len();
    let total = n_imports + module.functions.len();
    let ghost ni = n_imports as int;
    let ghost sl = straight_line_module(*module, *config);
    let ghost mut offs = offs0;
    let ghost mut src = src0;
    proof {
        assert(all_placed(*module, offs, methods@, ni, ni, 0, 0));
    }
    let mut d: usize = 0;
    while d < module.bodies.len()
        invariant
            d <= module.bodies@.len(),
            d <= module.functions@.len(),
            ni == n_imports,
            offs.len() == total,
            d > 0 ==> offs[ni] == 0,
            d == 0 ==> script@.len() == 0,
            sources_track(module.exports@, methods@, processed@, src),
            forall|d2: int| 0 <= d2 < d ==> !#[trigger] reaches_unsupported(module.bodies@[d2].ops@),
            forall|k: int|
                0 <= k < module.exports@.len() && (#[trigger] module.exports@[k]).index < ni
                    ==> !processed@[k],
            forall|d1: int, d2: int|
                0 <= d1 < d2 < d ==> #[trigger] offs[ni + d1] < #[trigger] offs[ni + d2],
            forall|d1: int| 0 <= d1 < d ==> #[trigger] offs[ni + d1] < script@.len(),
            all_placed(*module, offs, methods@, ni, ni + d, 0, 0),
            sl == straight_line_module(*module, *config),
            n_imports == module.imports@.len(),
            total == n_imports + module.functions@.len(),
            registry.offsets@.len() == total,
            sl ==> registry.pending@.len() == 0,
            module.bodies@.len() == 0 ==> registry.pending@.len() == 0,
            sl ==> forall|k: int|
                0 <= k < module.exports@.len() && (#[trigger] module.exports@[k]).index < d
                    ==> processed@[k],
            processed@.len() == module.exports@.len(),
            forall|k: int|
                0 <= k < module.exports@.len() && #[trigger] processed@[k] ==> has_method_for(
                    methods@,
                    module.exports@,
                    k,
                ),
            forall|m: int|
                0 <= m < methods@.len() ==> named_by_export(module.exports@, #[trigger] methods@[m]),
            forall|m: int| 0 <= m < methods@.len() ==> !(#[trigger] methods@[m]).safe,
            forall|m: int| 0 <= m < methods@.len() ==> (#[trigger] methods@[m]).offset < script@.len(),
            features.payable == payable_among(module.exports@, processed@),
        decreases module.bodies@.len() - d,
    {
        let func_index = match n_imports.checked_add(d) {
            Some(f) => f,
            None => {
                return Err(TranslateError::TooManyPayloads);
            },
        };
        if d >= module.functions.len() {
            return Err(TranslateError::MissingFunctionType { index: func_index });
        }
        proof {
            if sl {
                assert(straight_line_body(*module, d as int));
            }
        }
        let type_index = module.functions[d];
        if type_index as usize >= module.types.len() {
            return Err(TranslateError::InvalidTypeIndex { index: type_index });
        }
        let sig = &module.types[type_index as usize];
        proof {
            if sl {
                assert(all_integer(sig.params@)) by {
                    assert forall|i: int| 0 <= i < sig.params@.len() implies is_integer(
                        #[trigger] sig.params@[i],
                    ) by {
                        assert(all_params_integer(sig.params@));
                    }
                }
            }
        }
        let name: &str = match first_export_of(&module.exports, func_index) {
            Some(k) => module.exports[k].name.as_str(),
            None => "",
        };
        let offset = script.len();
        proof {
            lemma_placed_update(*module, offs, methods@, ni, ni + d, 0, 0, ni + d, offset as int);
            offs = offs.update(ni + d, offset as int);
            lemma_placed_widen(*module, offs, methods@, ni, ni + d, 0, 0, ni + d + 1, 0);
        }
        registry.register_offset(func_index, offset)?;
        let return_type = translate_function(
            sig,
            &module.bodies[d],
            module,
            func_index,
            name,
            script,
            registry,
            features,
        )?;
        let ghost before = methods@;
        let ghost old_p = processed@;
        let ghost old_pay = features.payable;
        record_methods(
            &module.exports,
            processed,
            func_index,
            sig,
            return_type,
            offset,
            methods,
            features,
        );
        proof {
            lemma_new_methods_named(module.exports@, before, methods@, func_index as int, return_type, offset);
            lemma_new_methods_unsafe(module.exports@, before, methods@, func_index as int, return_type, offset);
            lemma_payable_tracks(module.exports@, old_p, processed@, func_index as int, old_pay, features.payable);
            let g = choose|g: Seq<int>|
                #[trigger] new_sources(module.exports@, old_p, func_index as int, before, methods@, g);
            lemma_track_extend(module.exports@, old_p, processed@, func_index as int, before, methods@, src, g);
            src = src + g;
            lemma_new_methods_inside(module.exports@, before, methods@, func_index as int, return_type, offset, script@.len());
            assert(function_type_index(*module, ni + d) == type_index);
            lemma_placed_append(
                *module,
                offs,
                before,
                methods@,
                ni,
                ni + d + 1,
                0,
                0,
                ni + d,
                return_type,
                offset,
            );
        }
        d = d + 1;
    }
    Ok((Ghost(offs), Ghost(src)))
}

/// Translates a decoded module: each function body in order, then a stub for each exported
/// import, then the calls are resolved and the contract calls of the script collected.
#[verifier::spinoff_prover]
#[verifier::rlimit(100)]
pub fn translate_decoded(module: &WasmModule, config: &TranslationConfig) -> (r: Result<
    Translation,
    TranslateError,
>)
    ensures
        r matches Ok(t) ==> translation_of(*module, *config, t),
        module.exports@.len() == 0 ==> r is Err,
        syscall_stub_module(*module, *config) ==> r is Ok,
        straight_line_module(*module, *config) ==> r is Ok,
        (exists|n: Seq<char>|
            #[trigger] overlays_mark_safe(
                config.manifest_overlays@,
                n,
                config.manifest_overlays@.len() as int,
            ) && !export_named(module.exports@, n)) ==> r is Err,
        (exists|d: int|
            0 <= d < module.bodies@.len() && #[trigger] reaches_unsupported(module.bodies@[d].ops@))
            ==> r is Err,
        (!module.has_code_section && module.bodies@.len() == 0 && module.imports@.len()
            + module.functions@.len() <= usize::MAX && forall|k: int|
            0 <= k < module.exports@.len() ==> (#[trigger] module.exports@[k]).index
                >= module.imports@.len()) ==> r == Err::<Translation, TranslateError>(
            TranslateError::NoCodeSection,
        ),
{
    proof {
        if syscall_stub_module(*module, *config) {
            lemma_stub_module_shape(*module, *config);
        }
    }
    let ghost nc = !module.has_code_section && module.bodies@.len() == 0 && forall|k: int|
        0 <= k < module.exports@.len() ==> (#[trigger] module.exports@[k]).index
            >= module.imports@.len();
    let n_imports = module.imports.len();
    let total = match n_imports.checked_add(module.functions.len()) {
        Some(t) => t,
        None => {
            return Err(TranslateError::TooManyPayloads);
        },
    };
    let mut registry = FunctionRegistry::new(total);
    let mut script: Vec<u8> = Vec::new();
    let mut features = FeatureTracker::new();
    let mut methods: Vec<ManifestMethod> = Vec::new();
    let mut processed: Vec<bool> = vec![false; module.exports.len()];

    let ghost sl = straight_line_module(*module, *config);
    let ghost mut src: Seq<int> = Seq::empty();
    proof {
        lemma_track_empty(module.exports@, methods@, processed@);
    }
    let ghost mut offs: Seq<int> = Seq::new(total as nat, |i: int| 0int);
    let ghost ni = n_imports as int;
    let (Ghost(offs1), Ghost(src1)) = translate_bodies(
        module,
        config,
        &mut script,
        &mut registry,
        &mut features,
        &mut methods,
        &mut processed,
        Ghost(offs),
        Ghost(src),
    )?;
    proof {
        offs = offs1;
        src = src1;
    }

    proof {
        if sl {
            assert forall|k: int| 0 <= k < module.exports@.len() implies #[trigger] processed@[k] by {
                assert(module.exports@[k].index < module.bodies@.len());
            }
        }
    }
    let (Ghost(offs2), Ghost(src2)) = emit_export_stubs(
        module,
        &mut script,
        &mut features,
        &mut methods,
        &mut processed,
        Ghost(offs),
        Ghost(src),
    )?;
    proof {
        offs = offs2;
        src = src2;
    }
    proof {
        if syscall_stub_module(*module, *config) {
            lemma_stub_module_processed(*module, *config, processed@, methods@);
        }
    }

    if !module.has_code_section && !any_import_exported(&module.exports, n_imports) {
        return Err(TranslateError::NoCodeSection);
    }
    let missing = missing_export_names(&module.exports, &processed);
    if missing.len() > 0 {
        return Err(TranslateError::MissingExports { names: missing });
    }
    proof {
        if sl {
            assert(processed@[0]);
            assert(has_method_for(methods@, module.exports@, 0));
        }
    }
    if methods.len() == 0 {
        return Err(TranslateError::NoExports);
    }
    proof {
        lemma_track_complete(module.exports@, methods@, processed@, src);
        assert forall|k: int| 0 <= k < module.exports@.len() implies has_method_for(
            methods@,
            module.exports@,
            k,
        ) by {
            assert(processed@[k]);
        }
    }
    let ghost unmarked = methods@;
    apply_safe_overlays(&config.manifest_overlays, &module.exports, &mut methods)?;
    proof {
        assert(payable_among(module.exports@, processed@) == exists|k: int|
            0 <= k < module.exports@.len() && is_payment_export(#[trigger] module.exports@[k])) by {
            if exists|k: int|
                0 <= k < module.exports@.len() && is_payment_export(#[trigger] module.exports@[k]) {
                let k = choose|k: int|
                    0 <= k < module.exports@.len() && is_payment_export(#[trigger] module.exports@[k]);
                assert(processed@[k]);
            }
        }
    }
    resolve_start_descriptor(module, &mut features)?;
    registry.resolve(&mut script)?;
    let method_tokens = infer_contract_tokens(script.as_slice());
    let enabled = features.apply();
    proof {
        reveal_strlit("storage");
        reveal_strlit("payable");
        if features.payable {
            assert(enabled@[enabled@.len() - 1]@ == "payable"@);
        } else {
            assert forall|i: int| 0 <= i < enabled@.len() implies (#[trigger] enabled@[i])@ != "payable"@ by {
                assert(i == 0 && features.storage);
                assert(enabled@[0]@ == "storage"@);
                assert("storage"@[0] != "payable"@[0]);
            }
        }
    }
    let t = Translation {
        contract_name: config.contract_name.clone(),
        script,
        methods,
        method_tokens,
        features: enabled,
    };
    proof {
        assert(laid_out(*module, t, offs)) by {
        assert forall|m: int| 0 <= m < t.methods@.len() implies #[trigger] placed(
            *module,
            offs,
            t.methods@[m],
        ) by {
            assert(placed_in(*module, offs, unmarked[m], ni, ni + module.bodies@.len(), 0, ni));
            let k = choose|k: int|
                #[trigger] method_placed(*module, offs, unmarked[m], k) && ((ni
                    <= module.exports@[k].index < ni + module.bodies@.len()) || (0
                    <= module.exports@[k].index < ni));
            assert(method_placed(*module, offs, t.methods@[m], k));
        }
        }
        lemma_sources_rename(module.exports@, unmarked, t.methods@, src);
    }
    Ok(t)
}

/// Methods added at an offset inside the script, beside methods already inside it, all lie
/// inside the script.
proof fn lemma_new_methods_inside(
    exports: Seq<FunctionExport>,
    before: Seq<ManifestMethod>,
    after: Seq<ManifestMethod>,
    index: int,
    return_type: &'static str,
    offset: usize,
    len: nat,
)
    requires
        after.len() >= before.len(),
        offset < len,
        forall|m: int| 0 <= m < before.len() ==> (#[trigger] before[m]).offset < len,
        forall|m: int| 0 <= m < before.len() ==> after[m] == before[m],
        forall|m: int|
            before.len() <= m < after.len() ==> #[trigger] is_method_of(
                exports,
                after[m],
                index,
                return_type,
                offset,
            ),
    ensures
        forall|m: int| 0 <= m < after.len() ==> (#[trigger] after[m]).offset < len,
{
    assert((offset as u32) as usize <= offset) by (bit_vector);
    assert forall|m: int| 0 <= m < after.len() implies (#[trigger] after[m]).offset < len by {
        if m < before.len() {
            assert(after[m] == before[m]);
        } else {
            assert(is_method_of(exports, after[m], index, return_type, offset));
            let j = choose|j: int|
                0 <= j < exports.len() && #[trigger] method_of_export(
                    after[m],
                    exports[j],
                    index,
                    return_type,
                    offset,
                );
        }
    }
}

/// Methods added for exports of one function are named by those exports.
proof fn lemma_new_methods_named(
    exports: Seq<FunctionExport>,
    before: Seq<ManifestMethod>,
    after: Seq<ManifestMethod>,
    index: int,
    return_type: &'static str,
    offset: usize,
)
    requires
        after.len() >= before.len(),
        forall|m: int| 0 <= m < before.len() ==> named_by_export(exports, #[trigger] before[m]),
        forall|m: int| 0 <= m < before.len() ==> after[m] == before[m],
        forall|m: int|
            before.len() <= m < after.len() ==> #[trigger] is_method_of(
                exports,
                after[m],
                index,
                return_type,
                offset,
            ),
    ensures
        forall|m: int| 0 <= m < after.len() ==> named_by_export(exports, #[trigger] after[m]),
{
    assert forall|m: int| 0 <= m < after.len() implies named_by_export(exports, #[trigger] after[m]) by {
        if m < before.len() {
            assert(after[m] == before[m]);
            assert(named_by_export(exports, before[m]));
        } else {
            assert(is_method_of(exports, after[m], index, return_type, offset));
            let j = choose|j: int|
                0 <= j < exports.len() && #[trigger] method_of_export(
                    after[m],
                    exports[j],
                    index,
                    return_type,
                    offset,
                );
            assert(after[m].name == exports[j].name);
        }
    }
}

/// The payable feature stays the disjunction, over the exports given a method, of being a
/// payment hook.
proof fn lemma_payable_tracks(
    exports: Seq<FunctionExport>,
    old_p: Seq<bool>,
    new_p: Seq<bool>,
    index: int,
    old_pay: bool,
    new_pay: bool,
)
    requires
        old_p.len() == exports.len(),
        new_p.len() == exports.len(),
        forall|k: int|
            0 <= k < exports.len() ==> #[trigger] new_p[k] == (old_p[k] || exports_function(
                exports,
                k,
                index,
            )),
        old_pay == payable_among(exports, old_p),
        new_pay == (old_pay || newly_payable(exports, old_p, index)),
    ensures
        new_pay == payable_among(exports, new_p),
{
    if new_pay {
        if old_pay {
            let k = choose|k: int|
                0 <= k < exports.len() && old_p[k] && is_payment_export(#[trigger] exports[k]);
            assert(new_p[k]);
        } else {
            let k = choose|k: int|
                exports_function(exports, k, index) && !old_p[k] && is_payment_export(
                    #[trigger] exports[k],
                );
            assert(new_p[k]);
        }
    } else {
        assert forall|k: int|
            0 <= k < exports.len() && new_p[k] implies !is_payment_export(#[trigger] exports[k]) by {
            if old_p[k] {
            } else {
                assert(exports_function(exports, k, index));
            }
        }
    }
}

/// Methods added for exports of one function are not marked safe.
proof fn lemma_new_methods_unsafe(
    exports: Seq<FunctionExport>,
    before: Seq<ManifestMethod>,
    after: Seq<ManifestMethod>,
    index: int,
    return_type: &'static str,
    offset: usize,
)
    requires
        after.len() >= before.len(),
        forall|m: int| 0 <= m < before.len() ==> !(#[trigger] before[m]).safe,
        forall|m: int| 0 <= m < before.len() ==> after[m] == before[m],
        forall|m: int|
            before.len() <= m < after.len() ==> #[trigger] is_method_of(
                exports,
                after[m],
                index,
                return_type,
                offset,
            ),
    ensures
        forall|m: int| 0 <= m < after.len() ==> !(#[trigger] after[m]).safe,
{
    assert forall|m: int| 0 <= m < after.len() implies !(#[trigger] after[m]).safe by {
        if m < before.len() {
            assert(after[m] == before[m]);
        } else {
            assert(is_method_of(exports, after[m], index, return_type, offset));
        }
    }
}

/// Whether function `index` has an export that has no method yet.
fn pending_export_of(exports: &Vec<FunctionExport>, processed: &Vec<bool>, index: usize) -> (r: bool)
    requires
        processed@.len() == exports@.len(),
    ensures
        r == exists|k: int| exports_function(exports@, k, index as int) && !processed@[k],
{
    let mut k: usize = 0;
    while k < exports.len()
        invariant
            k <= exports@.len(),
            processed@.len() == exports@.len(),
            forall|j: int| 0 <= j < k ==> !(exports_function(exports@, j, index as int) && !processed@[j]),
        decreases exports@.len() - k,
    {
        if exports[k].index as usize == index && !processed[k] {
            assert(exports_function(exports@, k as int, index as int) && !processed@[k as int]);
            return true;
        }
        k = k + 1;
    }
    false
}

/// Whether some export names one of the first `n_imports` functions.
fn any_import_exported(exports: &Vec<FunctionExport>, n_imports: usize) -> (r: bool)
    ensures
        r == exists|k: int| 0 <= k < exports@.len() && (#[trigger] exports@[k]).index < n_imports,
{
    let mut k: usize = 0;
    while k < exports.len()
        invariant
            k <= exports@.len(),
            forall|j: int| 0 <= j < k ==> (#[trigger] exports@[j]).index >= n_imports,
        decreases exports@.len() - k,
    {
        if (exports[k].index as usize) < n_imports {
            return true;
        }
        k = k + 1;
    }
    false
}

/// What the header check decides of a translation's outcome `r`: input shorter than the
/// preamble, a bad magic number and another version than 1 fail with their errors, and a
/// translation only succeeds on input that starts with the preamble.
pub open spec fn header_outcome(bytes: Seq<u8>, r: Result<Translation, TranslateError>) -> bool {
    &&& bytes.len() < 8 ==> r == Err::<Translation, TranslateError>(
        TranslateError::HeaderTooShort { len: bytes.len() as usize },
    )
    &&& bytes.len() >= 8 && bytes.subrange(0, 4) != wasm_preamble().subrange(0, 4) ==> r == Err::<
        Translation,
        TranslateError,
    >(TranslateError::BadMagic { found: [bytes[0], bytes[1], bytes[2], bytes[3]] })
    &&& bytes.len() >= 8 && bytes.subrange(0, 4) == wasm_preamble().subrange(0, 4) && bytes.subrange(
        4,
        8,
    ) != wasm_preamble().subrange(4, 8) ==> r == Err::<Translation, TranslateError>(
        TranslateError::UnsupportedVersion { found: [bytes[4], bytes[5], bytes[6], bytes[7]] },
    )
    &&& r is Ok ==> bytes.len() >= 8 && bytes.subrange(0, 8) == wasm_preamble()
}

/// Translates the WebAssembly module `bytes` with `config`: the header is checked, the module
/// decoded, and its functions translated.
pub fn translate_with_config(bytes: &[u8], config: TranslationConfig) -> (r: Result<
    Translation,
    TranslateError,
>)
    ensures
        config.contract_name@.len() == 0 ==> r == Err::<Translation, TranslateError>(
            TranslateError::EmptyContractName,
        ),
        config.contract_name@.len() > 0 && bytes@.len() < 8 ==> r == Err::<Translation, TranslateError>(
            TranslateError::HeaderTooShort { len: bytes@.len() as usize },
        ),
        config.contract_name@.len() > 0 ==> header_outcome(bytes@, r),
        r matches Ok(t) ==> exists|m: WasmModule| #[trigger] translation_of(m, config, t),
{
    if config.contract_name.as_str().as_bytes().len() == 0 {
        return Err(TranslateError::EmptyContractName);
    }
    validate_wasm_header(bytes)?;
    let module = decode_module(bytes)?;
    let _graph = analyze_function_dependency_graph(&module);
    let _reachable = reachable_defined_functions(&module);
    let r = translate_decoded(&module, &config);
    proof {
        if r is Ok {
            assert(translation_of(module, config, r->Ok_0));
        }
    }
    r
}

/// Translates the WebAssembly module `bytes` into a contract named `contract_name`.
pub fn translate_module(bytes: &[u8], contract_name: &str) -> (r: Result<Translation, TranslateError>)
    ensures
        contract_name@.len() == 0 ==> r == Err::<Translation, TranslateError>(
            TranslateError::EmptyContractName,
        ),
        contract_name@.len() > 0 ==> header_outcome(bytes@, r),
        r matches Ok(t) ==> t.contract_name@ == contract_name@ && exists|m: WasmModule, c: TranslationConfig|
            c.contract_name@ == contract_name@ && c.manifest_overlays@.len() == 0
                && #[trigger] translation_of(m, c, t),
{
    if contract_name.as_bytes().len() == 0 {
        return Err(TranslateError::EmptyContractName);
    }
    let config = TranslationConfig::new(String::from_str(contract_name));
    let ghost c = config;
    let r = translate_with_config(bytes, config);
    proof {
        if r is Ok {
            let t = r->Ok_0;
            let m = choose|m: WasmModule| #[trigger] translation_of(m, c, t);
            assert(c.contract_name@ == contract_name@ && c.manifest_overlays@.len() == 0
                && translation_of(m, c, t));
        }
    }
    r
}

/// Appends the entry stub of an exported start function and returns its offset. The stub
/// calls the memory initialiser at `init_helper_offset` unless static field `init_flag_slot`
/// is set, then runs the start function at `start_offset` (if it is a defined function) unless
/// static field `start_slot` is set, sets `start_slot`, and returns.
pub fn append_start_stub(
    script: &mut Vec<u8>,
    init_flag_slot: u32,
    init_helper_offset: usize,
    start_offset: Option<usize>,
    start_slot: u32,
) -> (r: Result<usize, TranslateError>)
    ensures
        init_flag_slot > 255 ==> r is Err,
        init_flag_slot <= 255 && start_slot > 255 ==> r is Err,
        r is Ok <==> ({
            let init_call = old(script)@.len() + slot_bytes(SlotOp::LoadStatic, init_flag_slot as int).len()
                + 5;
            let start_call = init_call + 5 + slot_bytes(SlotOp::LoadStatic, start_slot as int).len() + 5;
            &&& init_flag_slot <= 255
            &&& start_slot <= 255
            &&& displacement_fits(init_call as int, init_helper_offset as int)
            &&& (start_offset matches Some(o) ==> displacement_fits(start_call as int, o as int))
        }),
        r matches Ok(off) ==> off == old(script)@.len() && final(script)@.len() > off
            && final(script)@.last() == RET && final(script)@.subrange(0, off as int)
            == old(script)@,
{
    let stub_offset = script.len();
    let ghost prefix = script@;
    emit_load_static(script, init_flag_slot)?;
    let skip_init = emit_jump_placeholder(script, JMPIF_L);
    let init_call = emit_call_placeholder(script);
    let ghost s0 = script@;
    patch_call(script, init_call, init_helper_offset)?;
    proof {
        lemma_patched_jump_reaches_target(s0, init_call as int, init_helper_offset as int);
        assert(script@.subrange(0, stub_offset as int) =~= prefix);
    }
    let after_init = script.len();
    let ghost s1 = script@;
    patch_jump(script, skip_init, after_init)?;
    proof {
        lemma_patched_jump_reaches_target(s1, skip_init as int, after_init as int);
        assert(script@.subrange(0, stub_offset as int) =~= prefix);
    }
    emit_load_static(script, start_slot)?;
    let skip_start = emit_jump_placeholder(script, JMPIF_L);
    if let Some(offset) = start_offset {
        let start_call = emit_call_placeholder(script);
        let ghost s2 = script@;
        patch_call(script, start_call, offset)?;
        proof {
            lemma_patched_jump_reaches_target(s2, start_call as int, offset as int);
            assert(script@.subrange(0, stub_offset as int) =~= prefix);
        }
    }
    let after_start = script.len();
    let ghost s3 = script@;
    patch_jump(script, skip_start, after_start)?;
    proof {
        lemma_patched_jump_reaches_target(s3, skip_start as int, after_start as int);
        assert(script@.subrange(0, stub_offset as int) =~= prefix);
    }
    let _ = emit_push_int(script, 1);
    emit_store_static(script, start_slot)?;
    script.push(RET);
    proof {
        assert(script@.subrange(0, stub_offset as int) =~= prefix);
    }
    Ok(stub_offset)
}

/// Whether some export is named `n`.
pub open spec fn export_named(exports: Seq<FunctionExport>, n: Seq<char>) -> bool {
    exists|k: int| 0 <= k < exports.len() && (#[trigger] exports[k]).name@ == n
}

/// Whether some method is named `n`.
pub open spec fn method_named(methods: Seq<ManifestMethod>, n: Seq<char>) -> bool {
    exists|k: int| 0 <= k < methods.len() && (#[trigger] methods[k]).name@ == n
}

/// Whether method `k` is the first method named `n`.
pub open spec fn first_named(methods: Seq<ManifestMethod>, k: int, n: Seq<char>) -> bool {
    methods[k].name@ == n && forall|j: int| 0 <= j < k ==> (#[trigger] methods[j]).name@ != n
}

/// Marks safe the first method of each name in `safe`, and fails with the names in `safe` that
/// no method has, in lexicographic order.
pub fn mark_safe_methods(methods: &mut Vec<ManifestMethod>, safe: Vec<String>) -> (r: Result<
    (),
    TranslateError,
>)
    requires
        distinct_names(safe@),
    ensures
        final(methods)@.len() == old(methods)@.len(),
        forall|k: int|
            0 <= k < old(methods)@.len() ==> {
                &&& (#[trigger] final(methods)@[k]).name == old(methods)@[k].name
                &&& final(methods)@[k].parameters == old(methods)@[k].parameters
                &&& final(methods)@[k].return_type == old(methods)@[k].return_type
                &&& final(methods)@[k].offset == old(methods)@[k].offset
                &&& final(methods)@[k].safe == (old(methods)@[k].safe || (holds_name(
                    safe@,
                    old(methods)@[k].name@,
                ) && first_named(old(methods)@, k, old(methods)@[k].name@)))
            },
        r is Ok <==> forall|q: int|
            0 <= q < safe@.len() ==> #[trigger] method_named(old(methods)@, safe@[q]@),
        r is Err ==> r matches Err(TranslateError::UnexportedSafeMethods { .. }),
        r matches Err(TranslateError::UnexportedSafeMethods { names }) ==> strings_sorted(names@),
        r matches Err(TranslateError::UnexportedSafeMethods { names }) ==> forall|n: Seq<char>|
            #[trigger] holds_name(names@, n) <==> (holds_name(safe@, n) && !method_named(
                old(methods)@,
                n,
            )),
{
    let mut remaining = safe;
    let ghost original = remaining@;
    let mut k: usize = 0;
    while k < methods.len()
        invariant
            k <= methods@.len(),
            methods@.len() == old(methods)@.len(),
            original == safe@,
            distinct_names(remaining@),
            forall|j: int|
                0 <= j < methods@.len() ==> {
                    &&& (#[trigger] methods@[j]).name == old(methods)@[j].name
                    &&& methods@[j].parameters == old(methods)@[j].parameters
                    &&& methods@[j].return_type == old(methods)@[j].return_type
                    &&& methods@[j].offset == old(methods)@[j].offset
                    &&& methods@[j].safe == if j < k {
                        old(methods)@[j].safe || (holds_name(original, old(methods)@[j].name@)
                            && first_named(old(methods)@, j, old(methods)@[j].name@))
                    } else {
                        old(methods)@[j].safe
                    }
                },
            forall|n: Seq<char>|
                #[trigger] holds_name(remaining@, n) <==> holds_name(original, n) && forall|j: int|
                    0 <= j < k ==> (#[trigger] old(methods)@[j]).name@ != n,
        decreases methods@.len() - k,
    {
        let ghost name_k = methods@[k as int].name@;
        let ghost before = remaining@;
        let ghost mbefore = methods@;
        let pos = position_of(&remaining, &methods[k].name);
        proof {
            assert(methods@[k as int].name == old(methods)@[k as int].name);
            assert(holds_name(before, name_k) == (holds_name(original, name_k) && first_named(
                old(methods)@,
                k as int,
                name_k,
            )));
        }
        match pos {
            Some(p) => {
                remaining.remove(p);
                let mut m = methods.remove(k);
                m.safe = true;
                methods.insert(k, m);
                proof {
                    assert forall|i: int, j: int| 0 <= i < j < remaining@.len() implies (
                    #[trigger] remaining@[i])@ != (#[trigger] remaining@[j])@ by {
                        let bi = if i < p { i } else { i + 1 };
                        let bj = if j < p { j } else { j + 1 };
                        assert(remaining@[i] == before[bi]);
                        assert(remaining@[j] == before[bj]);
                    }
                    assert forall|n: Seq<char>| #[trigger] holds_name(remaining@, n) <==> holds_name(before, n)
                        && n != name_k by {
                        if holds_name(remaining@, n) {
                            let q = choose|q: int| 0 <= q < remaining@.len() && (#[trigger] remaining@[q])@ == n;
                            let bq = if q < p { q } else { q + 1 };
                            assert(remaining@[q] == before[bq]);
                            assert(bq != p);
                        }
                        if holds_name(before, n) && n != name_k {
                            let q = choose|q: int| 0 <= q < before.len() && (#[trigger] before[q])@ == n;
                            assert(q != p);
                            let rq = if q < p { q } else { q - 1 };
                            assert(remaining@[rq] == before[q]);
                        }
                    }
                }
            },
            None => {},
        }
        proof {
            assert forall|n: Seq<char>| #[trigger] holds_name(remaining@, n) <==> holds_name(original, n)
                && forall|j: int| 0 <= j < k + 1 ==> (#[trigger] old(methods)@[j]).name@ != n by {
                assert(holds_name(before, n) <==> holds_name(original, n) && forall|j: int|
                    0 <= j < k ==> (#[trigger] old(methods)@[j]).name@ != n);
                if n == name_k {
                    assert(old(methods)@[k as int].name@ == n);
                }
            }
            assert forall|j: int| 0 <= j < methods@.len() implies {
                &&& (#[trigger] methods@[j]).name == old(methods)@[j].name
                &&& methods@[j].parameters == old(methods)@[j].parameters
                &&& methods@[j].return_type == old(methods)@[j].return_type
                &&& methods@[j].offset == old(methods)@[j].offset
                &&& methods@[j].safe == if j < k + 1 {
                    old(methods)@[j].safe || (holds_name(original, old(methods)@[j].name@)
                        && first_named(old(methods)@, j, old(methods)@[j].name@))
                } else {
                    old(methods)@[j].safe
                }
            } by {
                if j != k {
                    assert(methods@[j] == mbefore[j]);
                }
            }
        }
        k = k + 1;
    }
    if remaining.len() > 0 {
        proof {
            let n = remaining@[0]@;
            assert(holds_name(remaining@, n));
            let q = choose|q: int| 0 <= q < original.len() && (#[trigger] original[q])@ == n;
            assert(safe@[q]@ == n);
            if forall|q2: int| 0 <= q2 < safe@.len() ==> #[trigger] method_named(old(methods)@, safe@[q2]@) {
                assert(method_named(old(methods)@, safe@[q]@));
                let k = choose|k: int|
                    0 <= k < old(methods)@.len() && (#[trigger] old(methods)@[k]).name@ == (safe@[q])@;
                assert(old(methods)@[k].name@ == n);
                assert(false);
            }
        }
        let ghost unsorted = remaining@;
        let names = sort_strings(remaining);
        proof {
            assert forall|n: Seq<char>| #[trigger] holds_name(names@, n) <==> (holds_name(safe@, n)
                && !method_named(old(methods)@, n)) by {
                lemma_same_multiset_holds_name(names@, unsorted, n);
                if method_named(old(methods)@, n) {
                    let j = choose|j: int|
                        0 <= j < old(methods)@.len() && (#[trigger] old(methods)@[j]).name@ == n;
                    assert(old(methods)@[j].name@ == n);
                }
            }
        }
        return Err(TranslateError::UnexportedSafeMethods { names });
    }
    proof {
        assert forall|q: int| 0 <= q < safe@.len() implies #[trigger] method_named(
            old(methods)@,
            safe@[q]@,
        ) by {
                let n = safe@[q]@;
                assert(original[q]@ == n);
                assert(holds_name(original, n));
                assert(!holds_name(remaining@, n));
                assert(!(forall|j: int| 0 <= j < k ==> (#[trigger] old(methods)@[j]).name@ != n));
                let j = choose|j: int| 0 <= j < k && (#[trigger] old(methods)@[j]).name@ == n;
                assert(old(methods)@[j].name@ == safe@[q]@);
            }
    }
    Ok(())
}

/// Two sequences of strings with the same multiset of items hold the same names.
proof fn lemma_same_multiset_holds_name(a: Seq<String>, b: Seq<String>, n: Seq<char>)
    requires
        a.to_multiset() == b.to_multiset(),
    ensures
        holds_name(a, n) <==> holds_name(b, n),
{
    broadcast use vstd::seq_lib::to_multiset_contains;

    if holds_name(a, n) {
        let k = choose|k: int| 0 <= k < a.len() && (#[trigger] a[k])@ == n;
        assert(a.contains(a[k]));
        assert(b.to_multiset().count(a[k]) > 0);
        assert(b.contains(a[k]));
        let j = choose|j: int| 0 <= j < b.len() && b[j] == a[k];
        assert(b[j]@ == n);
    }
    if holds_name(b, n) {
        let k = choose|k: int| 0 <= k < b.len() && (#[trigger] b[k])@ == n;
        assert(b.contains(b[k]));
        assert(a.to_multiset().count(b[k]) > 0);
        assert(a.contains(b[k]));
        let j = choose|j: int| 0 <= j < a.len() && a[j] == b[k];
        assert(a[j]@ == n);
    }
}

/// The position of a string of `names` equal to `name`.
fn position_of(names: &Vec<String>, name: &String) -> (r: Option<usize>)
    ensures
        r matches Some(p) ==> p < names@.len() && names@[p as int]@ == name@,
        r is None ==> !holds_name(names@, name@),
{
    let mut i: usize = 0;
    while i < names.len()
        invariant
            i <= names@.len(),
            forall|j: int| 0 <= j < i ==> (#[trigger] names@[j])@ != name@,
        decreases names@.len() - i,
    {
        if names[i] == *name {
            return Some(i);
        }
        i = i + 1;
    }
    None
}

/// The payloads of the custom sections named `neo.manifest`, in order: the manifest overlays
/// that a module embeds.
pub open spec fn manifest_payloads(sections: Seq<(String, Vec<u8>)>) -> Seq<Seq<u8>>
    decreases sections.len(),
{
    if sections.len() == 0 {
        Seq::empty()
    } else {
        let rest = manifest_payloads(sections.drop_last());
        if sections.last().0@ == "neo.manifest"@ {
            rest.push(sections.last().1@)
        } else {
            rest
        }
    }
}

/// The payloads of the module's `neo.manifest` custom sections, in order.
pub fn manifest_section_payloads(module: &WasmModule) -> (r: Vec<Vec<u8>>)
    ensures
        r@.len() == manifest_payloads(module.custom_sections@).len(),
        forall|k: int| 0 <= k < r@.len() ==> (#[trigger] r@[k])@ == manifest_payloads(module.custom_sections@)[k],
{
    let marker = String::from_str("neo.manifest");
    let sections = &module.custom_sections;
    let mut out: Vec<Vec<u8>> = Vec::new();
    let mut i: usize = 0;
    while i < sections.len()
        invariant
            i <= sections@.len(),
            marker@ == "neo.manifest"@,
            out@.len() == manifest_payloads(sections@.subrange(0, i as int)).len(),
            forall|k: int|
                0 <= k < out@.len() ==> (#[trigger] out@[k])@ == manifest_payloads(
                    sections@.subrange(0, i as int),
                )[k],
        decreases sections@.len() - i,
    {
        proof {
            let next = sections@.subrange(0, i + 1);
            assert(next.drop_last() =~= sections@.subrange(0, i as int));
            assert(next.last() == sections@[i as int]);
        }
        if sections[i].0 == marker {
            out.push(sections[i].1.clone());
        }
        i = i + 1;
    }
    assert(sections@.subrange(0, sections@.len() as int) =~= sections@);
    out
}

/// The payloads of the `neo.manifest` custom sections of the module `bytes`, in order.
pub fn embedded_manifest_payloads(bytes: &[u8]) -> (r: Result<Vec<Vec<u8>>, TranslateError>)
    ensures
        r matches Ok(p) ==> exists|m: WasmModule| #[trigger] payloads_of(m, p@),
{
    let module = decode_module(bytes)?;
    let r: Result<Vec<Vec<u8>>, TranslateError> = Ok(manifest_section_payloads(&module));
    assert(payloads_of(module, r->Ok_0@));
    r
}

/// Whether `p` holds the payloads of the `neo.manifest` custom sections of `m`, in order.
pub open spec fn payloads_of(m: WasmModule, p: Seq<Vec<u8>>) -> bool {
    &&& p.len() == manifest_payloads(m.custom_sections@).len()
    &&& forall|k: int| 0 <= k < p.len() ==> (#[trigger] p[k])@ == manifest_payloads(m.custom_sections@)[k]
}

} // verus!
