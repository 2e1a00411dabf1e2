use wasm_neovm::function::emit_function_prologue;
use wasm_neovm::imports::{emit_cryptolib_call, try_handle_neo_import};
use wasm_neovm::module::{FuncSig, FunctionImport, ValKind};
use wasm_neovm::opcodes::lookup_opcode;
use wasm_neovm::reachability::FunctionDependencyGraph;
use wasm_neovm::syscalls::lookup;
use wasm_neovm::text::sort_strings;
use wasm_neovm::emit::emit_push_int;
use wasm_neovm::translate::{append_start_stub, normalize_exported_manifest_signature, ManifestParameter};
use wasm_neovm::errors::TranslateError;

fn op(name: &str) -> u8 {
    lookup_opcode(name).unwrap().byte
}

#[test]
fn start_stub_guards_initialisation_and_start() {
    let mut script = Vec::new();
    let offset = append_start_stub(&mut script, 0, 0, Some(0), 1).unwrap();
    assert_eq!(offset, 0);
    assert_eq!(
        script,
        vec![
            op("LDSFLD0"),
            op("JMPIF_L"), 10, 0, 0, 0,
            op("CALL_L"), 0xfa, 0xff, 0xff, 0xff,
            op("LDSFLD1"),
            op("JMPIF_L"), 10, 0, 0, 0,
            op("CALL_L"), 0xef, 0xff, 0xff, 0xff,
            op("PUSH1"),
            op("STSFLD1"),
            op("RET"),
        ]
    );
}

#[test]
fn start_stub_rejects_wide_slots() {
    let mut script = Vec::new();
    assert!(append_start_stub(&mut script, 256, 0, None, 1).is_err());
}

#[test]
fn prologue_declares_slots() {
    let mut script = Vec::new();
    emit_function_prologue(&mut script, 2, 3).unwrap();
    assert_eq!(script, vec![op("INITSLOT"), 2, 3]);
    let mut empty = Vec::new();
    emit_function_prologue(&mut empty, 0, 0).unwrap();
    assert!(empty.is_empty());
    assert_eq!(
        emit_function_prologue(&mut empty, 256, 0).unwrap_err(),
        TranslateError::TooManyLocals { count: 256 }
    );
    assert_eq!(
        emit_function_prologue(&mut empty, 0, 300).unwrap_err(),
        TranslateError::TooManyParams { count: 300 }
    );
}

fn graph() -> FunctionDependencyGraph {
    // one import (function 0); defined functions 1, 2, 3, 4
    FunctionDependencyGraph {
        import_function_count: 1,
        direct_edges: vec![vec![2], vec![], vec![0], vec![]],
        indirect_edges: vec![false, false, true, false],
        indirect_roots: vec![4],
    }
}

#[test]
fn runtime_init_follows_direct_calls() {
    let g = graph();
    assert!(g.function_requires_runtime_init(1, &vec![2]));
    assert!(!g.function_requires_runtime_init(2, &vec![1]));
    assert!(g.function_requires_runtime_init(1, &vec![1]));
}

#[test]
fn runtime_init_follows_indirect_calls() {
    let g = graph();
    assert!(g.function_requires_runtime_init(3, &vec![4]));
    assert!(!g.function_requires_runtime_init(1, &vec![4]));
}

#[test]
fn runtime_init_does_not_follow_imports() {
    let g = graph();
    assert!(!g.function_requires_runtime_init(0, &vec![2]));
    assert!(g.function_requires_runtime_init(0, &vec![0]));
    assert!(!g.function_requires_runtime_init(3, &vec![0]));
}

#[test]
fn sorts_strings_by_bytes() {
    let sorted = sort_strings(vec!["b".to_string(), "a".to_string(), "ab".to_string(), "B".to_string()]);
    assert_eq!(sorted, vec!["B", "a", "ab", "b"]);
}

#[test]
fn script_hash_getters_return_the_first_eight_bytes() {
    let import = FunctionImport {
        module: "neo".to_string(),
        name: "runtime_get_calling_script_hash_i64".to_string(),
        type_index: 0,
    };
    let sig = FuncSig { params: vec![], results: vec![ValKind::I64] };
    let mut script = Vec::new();
    let d = try_handle_neo_import(&import, &sig, &mut script).unwrap();
    assert_eq!(d, Some("System.Runtime.GetCallingScriptHash"));
    let hash = lookup("System.Runtime.GetCallingScriptHash").unwrap().hash;
    let mut expected = vec![op("SYSCALL")];
    expected.extend_from_slice(&hash.to_le_bytes());
    expected.extend_from_slice(&[op("PUSH0"), op("PUSH8"), op("SUBSTR"), op("CONVERT"), 0x21]);
    assert_eq!(script, expected);
}

#[test]
fn memory_helpers_need_a_runtime_helper() {
    let import = FunctionImport { module: "NEO".to_string(), name: "Log".to_string(), type_index: 0 };
    let sig = FuncSig { params: vec![ValKind::I32, ValKind::I32], results: vec![] };
    let mut script = Vec::new();
    assert_eq!(
        try_handle_neo_import(&import, &sig, &mut script).unwrap_err(),
        TranslateError::RuntimeHelperRequired { name: "Log".to_string() }
    );
    let other = FunctionImport { module: "env".to_string(), name: "log".to_string(), type_index: 0 };
    assert_eq!(try_handle_neo_import(&other, &sig, &mut script).unwrap(), None);
    assert!(script.is_empty());
}

#[test]
fn witness_check_pads_the_account() {
    let import = FunctionImport {
        module: "neo".to_string(),
        name: "runtime_check_witness_i64".to_string(),
        type_index: 0,
    };
    let sig = FuncSig { params: vec![ValKind::I64], results: vec![ValKind::I32] };
    let mut script = Vec::new();
    let d = try_handle_neo_import(&import, &sig, &mut script).unwrap();
    assert_eq!(d, Some("System.Runtime.CheckWitness"));
    let hash = lookup("System.Runtime.CheckWitness").unwrap().hash;
    let mut expected = vec![op("CONVERT"), 0x28, op("PUSHDATA1"), 19];
    expected.extend_from_slice(&[0u8; 19]);
    expected.push(op("CAT"));
    expected.push(op("SYSCALL"));
    expected.extend_from_slice(&hash.to_le_bytes());
    assert_eq!(script, expected);
}

#[test]
fn deploy_signatures_are_normalised() {
    let params = vec![ManifestParameter { name: "arg0".to_string(), kind: "Integer" }];
    let (p, r) = normalize_exported_manifest_signature("_DEPLOY", params.clone(), "Integer");
    assert_eq!(p.len(), 2);
    assert_eq!(p[0].name, "data");
    assert_eq!(p[0].kind, "Any");
    assert_eq!(p[1].name, "update");
    assert_eq!(p[1].kind, "Boolean");
    assert_eq!(r, "Void");
    let (p, r) = normalize_exported_manifest_signature("deploy", params, "Integer");
    assert_eq!(p.len(), 1);
    assert_eq!(p[0].name, "arg0");
    assert_eq!(r, "Integer");
}

#[test]
fn integer_pushes_use_the_shortest_form() {
    let lens: Vec<usize> = [-1i128, 0, 16, 17, -128, 127, 128, 32767, 32768, 1 << 31, 1 << 40, 1 << 70]
        .iter()
        .map(|v| {
            let mut s = Vec::new();
            let _ = emit_push_int(&mut s, *v);
            s.len()
        })
        .collect();
    assert_eq!(lens, vec![1, 1, 1, 2, 2, 2, 3, 3, 5, 9, 9, 17]);
}

#[test]
fn cryptolib_calls_go_through_contract_call() {
    let hash = [7u8; 20];
    let mut script = vec![0xAAu8];
    let description = emit_cryptolib_call(&mut script, hash, "sha256", "crypto_sha256").unwrap();
    assert_eq!(description, "Neo.Crypto.sha256 (via crypto_sha256)");
    let mut expected = vec![0xAAu8, lookup_opcode("PUSHDATA1").unwrap().byte, 20];
    expected.extend_from_slice(&hash);
    expected.push(lookup_opcode("PUSHDATA1").unwrap().byte);
    expected.push(6);
    expected.extend_from_slice(b"sha256");
    expected.push(lookup_opcode("PUSH4").unwrap().byte);
    expected.push(lookup_opcode("SYSCALL").unwrap().byte);
    expected.extend_from_slice(&lookup("System.Contract.Call").unwrap().hash.to_le_bytes());
    assert_eq!(script, expected);
}

#[test]
fn storage_helpers_check_their_signature_first() {
    let import = FunctionImport {
        module: "neo".to_string(),
        name: "raw_storage_get_i64".to_string(),
        type_index: 0,
    };
    let mut script = Vec::new();
    let wrong = FuncSig { params: vec![ValKind::I32], results: vec![ValKind::I64] };
    assert_eq!(
        try_handle_neo_import(&import, &wrong, &mut script).unwrap_err(),
        TranslateError::NeoImportSignature { name: "raw_storage_get_i64".to_string() }
    );
    let right = FuncSig { params: vec![ValKind::I64], results: vec![ValKind::I64] };
    assert_eq!(
        try_handle_neo_import(&import, &right, &mut script).unwrap_err(),
        TranslateError::RuntimeHelperRequired { name: "raw_storage_get_i64".to_string() }
    );
    let next = FunctionImport {
        module: "neo".to_string(),
        name: "runtime_iterator_next".to_string(),
        type_index: 0,
    };
    let no_result = FuncSig { params: vec![], results: vec![] };
    assert_eq!(
        try_handle_neo_import(&next, &no_result, &mut script).unwrap_err(),
        TranslateError::NeoImportSignature { name: "runtime_iterator_next".to_string() }
    );
    assert!(script.is_empty());
}
