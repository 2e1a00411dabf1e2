use wasm_neovm::errors::TranslateError;
use wasm_neovm::opcodes::lookup_opcode;
use wasm_neovm::syscalls::lookup;
use wasm_neovm::translate::{parameter_name, translate_module, Translation};

fn op(name: &str) -> u8 {
    lookup_opcode(name).unwrap().byte
}

fn translate(wat_text: &str) -> Result<Translation, TranslateError> {
    let wasm = wat::parse_str(wat_text).expect("valid wat");
    translate_module(&wasm, "Contract")
}

#[test]
fn translates_an_exported_add() {
    let t = translate(
        r#"(module
              (func (export "add") (param i32 i32) (result i32)
                local.get 0
                local.get 1
                i32.add))"#,
    )
    .expect("translation succeeds");
    assert_eq!(
        t.script,
        vec![op("INITSLOT"), 0, 2, op("LDARG0"), op("LDARG1"), op("ADD"), op("RET")]
    );
    assert_eq!(t.contract_name, "Contract");
    assert_eq!(t.methods.len(), 1);
    let m = &t.methods[0];
    assert_eq!(m.name, "add");
    assert_eq!(m.offset, 0);
    assert_eq!(m.return_type, "Integer");
    assert!(!m.safe);
    assert_eq!(m.parameters.len(), 2);
    assert_eq!(m.parameters[0].name, "arg0");
    assert_eq!(m.parameters[1].name, "arg1");
    assert_eq!(m.parameters[1].kind, "Integer");
    assert!(t.method_tokens.is_empty());
    assert!(t.features.is_empty());
}

#[test]
fn emits_arithmetic_on_constants() {
    let t = translate(
        r#"(module
              (func (export "five") (result i32)
                i32.const 2
                i32.const 3
                i32.add))"#,
    )
    .unwrap();
    assert_eq!(t.script, vec![op("PUSH2"), op("PUSH3"), op("ADD"), op("RET")]);
}

#[test]
fn folds_eqz_of_a_constant() {
    let t = translate(
        r#"(module
              (func (export "z") (result i32)
                i32.const 0
                i32.eqz))"#,
    )
    .unwrap();
    assert_eq!(t.script, vec![op("PUSH1"), op("RET")]);
}

#[test]
fn void_functions_return_void() {
    let t = translate(r#"(module (func (export "noop")))"#).unwrap();
    assert_eq!(t.script, vec![op("RET")]);
    assert_eq!(t.methods[0].return_type, "Void");
    assert!(t.methods[0].parameters.is_empty());
}

#[test]
fn every_alias_of_an_export_becomes_a_method() {
    let t = translate(
        r#"(module
              (func $f (result i32) i32.const 1)
              (export "first" (func $f))
              (export "second" (func $f)))"#,
    )
    .unwrap();
    assert_eq!(t.methods.len(), 2);
    assert_eq!(t.methods[0].name, "first");
    assert_eq!(t.methods[1].name, "second");
    assert_eq!(t.methods[0].offset, t.methods[1].offset);
}

#[test]
fn resolves_calls_between_functions() {
    let t = translate(
        r#"(module
              (func $one (result i32) i32.const 1)
              (func (export "main") (result i32) call $one))"#,
    )
    .unwrap();
    // $one at 0: PUSH1 RET; main at 2: CALL_L -2, RET
    assert_eq!(
        t.script,
        vec![op("PUSH1"), op("RET"), op("CALL_L"), 0xfe, 0xff, 0xff, 0xff, op("RET")]
    );
    assert_eq!(t.methods[0].offset, 2);
}

#[test]
fn lowers_syscall_imports() {
    let t = translate(
        r#"(module
              (import "syscall" "System.Runtime.GetTime" (func $time (result i64)))
              (func (export "now") (result i64) call $time))"#,
    )
    .unwrap();
    let hash = lookup("System.Runtime.GetTime").unwrap().hash;
    let mut expected = vec![op("SYSCALL")];
    expected.extend_from_slice(&hash.to_le_bytes());
    expected.push(op("RET"));
    assert_eq!(t.script, expected);
    assert_eq!(t.method_tokens.len(), 1);
    assert_eq!(t.method_tokens[0].method, "System.Runtime.GetTime");
}

#[test]
fn storage_syscalls_enable_the_storage_feature() {
    let t = translate(
        r#"(module
              (import "syscall" "System.Storage.GetContext" (func $ctx (result i32)))
              (func (export "ctx") (result i32) call $ctx))"#,
    )
    .unwrap();
    assert_eq!(t.features, vec!["storage"]);
}

#[test]
fn payment_hooks_make_the_contract_payable() {
    let t = translate(
        r#"(module
              (func (export "onNEP17Payment") (param i64 i64 i64)))"#,
    )
    .unwrap();
    assert_eq!(t.features, vec!["payable"]);
    // the handler declares one helper local for its data adapter
    assert_eq!(&t.script[0..3], &[op("INITSLOT"), 1, 3]);
    assert_eq!(*t.script.last().unwrap(), op("RET"));
}

#[test]
fn exported_imports_get_a_stub() {
    let t = translate(
        r#"(module
              (import "syscall" "System.Runtime.GetTime" (func $time (result i64)))
              (export "time" (func $time)))"#,
    )
    .unwrap();
    let hash = lookup("System.Runtime.GetTime").unwrap().hash;
    let mut expected = vec![op("SYSCALL")];
    expected.extend_from_slice(&hash.to_le_bytes());
    expected.push(op("RET"));
    assert_eq!(t.script, expected);
    assert_eq!(t.methods[0].name, "time");
    assert_eq!(t.methods[0].return_type, "Integer");
}

#[test]
fn rejects_float_parameters() {
    let err = translate(r#"(module (func (export "f") (param f32)))"#).err().unwrap();
    assert!(matches!(err, TranslateError::UnsupportedType { .. }));
}

#[test]
fn rejects_multi_value_returns() {
    let err = translate(
        r#"(module (func (export "f") (result i32 i32) i32.const 1 i32.const 2))"#,
    )
    .err()
    .unwrap();
    assert_eq!(err, TranslateError::MultiValueReturn);
}

#[test]
fn rejects_modules_without_exports() {
    let err = translate(r#"(module (func (result i32) i32.const 1))"#).err().unwrap();
    assert_eq!(err, TranslateError::NoExports);
}

#[test]
fn rejects_an_empty_contract_name() {
    let wasm = wat::parse_str(r#"(module (func (export "f")))"#).unwrap();
    assert_eq!(translate_module(&wasm, "").err().unwrap(), TranslateError::EmptyContractName);
}

#[test]
fn memory_access_needs_a_runtime_helper() {
    let err = translate(
        r#"(module
              (memory 1)
              (func (export "load") (result i32) i32.const 0 i32.load))"#,
    )
    .err()
    .unwrap();
    assert!(matches!(err, TranslateError::RuntimeHelperRequired { .. }));
}

#[test]
fn unknown_import_modules_are_rejected() {
    let err = translate(
        r#"(module
              (import "other" "thing" (func $t))
              (func (export "f") call $t))"#,
    )
    .err()
    .unwrap();
    assert_eq!(
        err,
        TranslateError::UnsupportedImportModule { module: "other".to_string(), name: "thing".to_string() }
    );
}

#[test]
fn env_memcpy_needs_a_runtime_helper() {
    let err = translate(
        r#"(module
              (import "env" "memcpy" (func $m (param i32 i32 i32) (result i32)))
              (func (export "f") (result i32) i32.const 0 i32.const 0 i32.const 0 call $m))"#,
    )
    .err()
    .unwrap();
    assert_eq!(err, TranslateError::RuntimeHelperRequired { name: "memcpy".to_string() });
}

#[test]
fn parameter_names_count_in_decimal() {
    assert_eq!(parameter_name(0), "arg0");
    assert_eq!(parameter_name(7), "arg7");
    assert_eq!(parameter_name(10), "arg10");
    assert_eq!(parameter_name(305), "arg305");
}

#[test]
fn branches_jump_to_the_end_of_blocks() {
    let t = translate(
        r#"(module
              (func (export "f") (param i32) (result i32)
                (block
                  local.get 0
                  br_if 0)
                i32.const 1))"#,
    )
    .unwrap();
    // INITSLOT 0 1; LDARG0; JMPIF_L +5 (to the end of the block); PUSH1; RET
    assert_eq!(
        t.script,
        vec![op("INITSLOT"), 0, 1, op("LDARG0"), op("JMPIF_L"), 5, 0, 0, 0, op("PUSH1"), op("RET")]
    );
}

#[test]
fn every_method_offset_points_into_the_script() {
    let t = translate(
        r#"(module
              (import "syscall" "System.Runtime.GetTime" (func $time (result i64)))
              (func $helper (param i32) (result i32)
                local.get 0
                i32.const 1
                i32.add)
              (func (export "run") (param i32) (result i32)
                local.get 0
                call $helper)
              (func (export "twice") (param i32 i32) (result i32)
                local.get 0
                local.get 1
                i32.mul)
              (export "time" (func $time)))"#,
    )
    .unwrap();
    assert_eq!(t.methods.len(), 3);
    for m in &t.methods {
        assert!((m.offset as usize) < t.script.len(), "method {} outside the script", m.name);
    }
}

#[test]
fn each_function_starts_with_its_slot_declaration() {
    let t = translate(
        r#"(module
              (func (export "first") (param i32) (result i32)
                (local i64)
                local.get 0)
              (func (export "second") (param i32 i32 i32) (result i32)
                local.get 2))"#,
    )
    .unwrap();
    let first = t.methods.iter().find(|m| m.name == "first").unwrap().offset as usize;
    let second = t.methods.iter().find(|m| m.name == "second").unwrap().offset as usize;
    assert_eq!(&t.script[first..first + 3], &[op("INITSLOT"), 1, 1]);
    assert_eq!(&t.script[second..second + 3], &[op("INITSLOT"), 0, 3]);
    assert_eq!(*t.script.last().unwrap(), op("RET"));
}

#[test]
fn drop_removes_a_dead_literal() {
    let t = translate(
        r#"(module
              (func (export "d")
                i32.const 5
                drop))"#,
    )
    .unwrap();
    assert_eq!(t.script, vec![op("RET")]);
}

#[test]
fn drop_of_a_computed_value_emits_drop() {
    let t = translate(
        r#"(module
              (func (export "d") (param i32)
                local.get 0
                drop))"#,
    )
    .unwrap();
    assert_eq!(t.script, vec![op("INITSLOT"), 0, 1, op("LDARG0"), op("DROP"), op("RET")]);
}

#[test]
fn drop_keeps_a_literal_that_a_jump_lands_after() {
    let t = translate(
        r#"(module
              (func (export "b") (param i32) (result i32)
                block (result i32)
                  i32.const 1
                  local.get 0
                  br_if 0
                  drop
                  i32.const 5
                end
                drop
                i32.const 2))"#,
    )
    .unwrap();
    let push5 = op("PUSH5");
    let drop = op("DROP");
    assert!(t.script.windows(2).any(|w| w[0] == push5 && w[1] == drop));
    assert_eq!(t.script[t.script.len() - 2..], [op("PUSH2"), op("RET")]);
}

#[test]
fn element_segments_for_unknown_tables_are_rejected() {
    let r = translate(
        r#"(module
              (table 1 funcref)
              (func $f)
              (elem (table 1) (i32.const 0) func $f)
              (func (export "main")))"#,
    );
    assert_eq!(r.err(), Some(TranslateError::UnknownElementTable { index: 1, tables: 1 }));
}

#[test]
fn a_module_without_code_is_rejected() {
    let wasm = [0x00u8, 0x61, 0x73, 0x6d, 0x01, 0x00, 0x00, 0x00];
    let err = translate_module(&wasm, "c").err().unwrap();
    assert_eq!(err, TranslateError::NoCodeSection);
    assert!(err.describe().contains("input module does not contain a code section"));
}

#[test]
fn an_empty_contract_name_is_described() {
    let wasm = [0x00u8, 0x61, 0x73, 0x6d, 0x01, 0x00, 0x00, 0x00];
    let err = translate_module(&wasm, "").err().unwrap();
    assert_eq!(err.describe(), "contract name cannot be empty");
}

#[test]
fn the_payment_adapter_starts_with_the_null_check() {
    let t = translate(
        r#"(module
              (func (export "onNEP17Payment") (param i64 i64 i64)))"#,
    )
    .unwrap();
    // a null data argument becomes 0 and jumps to the end of the adapter
    assert_eq!(
        &t.script[3..13],
        &[
            op("LDARG2"),
            op("ISNULL"),
            op("JMPIFNOT_L"),
            12,
            0,
            0,
            0,
            op("PUSH0"),
            op("STARG2"),
            op("JMP_L"),
        ]
    );
}

#[test]
fn a_dynamic_br_table_tests_each_case() {
    let t = translate(
        r#"(module
              (func (export "f") (param i32) (result i32)
                block
                  block
                    local.get 0
                    br_table 0 1 1
                  end
                end
                i32.const 9))"#,
    )
    .unwrap();
    let tests = [
        op("DUP"),
        op("PUSH0"),
        op("NUMEQUAL"),
        op("JMPIF_L"),
    ];
    let at = t
        .script
        .windows(4)
        .position(|w| w == tests)
        .expect("the test of case 0");
    let second = [op("DUP"), op("PUSH1"), op("NUMEQUAL"), op("JMPIF_L")];
    assert_eq!(&t.script[at + 8..at + 12], &second);
    assert_eq!(t.script[at + 16], op("DROP"));
}

#[test]
fn an_exported_storage_syscall_stub_enables_storage() {
    let t = translate(
        r#"(module
              (import "syscall" "System.Storage.GetContext" (func $ctx (result i32)))
              (export "ctx" (func $ctx)))"#,
    )
    .unwrap();
    assert_eq!(t.features, vec!["storage"]);
    assert_eq!(t.methods.len(), 1);
    assert_eq!(t.methods[0].name, "ctx");
    assert_eq!(t.methods[0].return_type, "Integer");
    let o = t.methods[0].offset as usize;
    let info = lookup("System.Storage.GetContext").unwrap();
    assert_eq!(t.script[o], op("SYSCALL"));
    assert_eq!(&t.script[o + 1..o + 5], &info.hash.to_le_bytes());
    assert_eq!(t.script[o + 5], op("RET"));
}

#[test]
fn floating_point_operators_are_rejected() {
    let err = translate(
        r#"(module
              (func (export "f") (result i32)
                i32.const 1
                drop
                f32.const 1.5
                drop
                i32.const 0))"#,
    )
    .err()
    .unwrap();
    match err {
        TranslateError::UnsupportedOperator { class, name } => {
            assert_eq!(class, wasm_neovm::module::Unsupported::Float);
            assert!(name.contains("F32Const"), "{}", name);
        }
        other => panic!("unexpected error {:?}", other),
    }
}

#[test]
fn neo_aliases_become_the_syscall_they_stand_for() {
    let t = translate(
        r#"(module
              (import "neo" "storage_get" (func $get (param i32) (result i32)))
              (func (export "g") (param i32) (result i32)
                local.get 0
                call $get))"#,
    )
    .unwrap();
    let hash = lookup("System.Storage.Get").unwrap().hash;
    let mut expected = vec![op("INITSLOT"), 0, 1, op("LDARG0"), op("SYSCALL")];
    expected.extend_from_slice(&hash.to_le_bytes());
    expected.push(op("RET"));
    assert_eq!(t.script, expected);
    assert_eq!(t.features, vec!["storage"]);
}

#[test]
fn unknown_neo_imports_are_rejected() {
    let err = translate(
        r#"(module
              (import "neo" "no_such_helper" (func $f))
              (func (export "g") call $f))"#,
    )
    .err()
    .unwrap();
    assert_eq!(err, TranslateError::UnknownNeoImport { name: "no_such_helper".to_string() });
}

#[test]
fn element_segments_at_negative_offsets_are_rejected() {
    let r = translate(
        r#"(module
              (table 1 funcref)
              (func $f)
              (elem (i32.const -1) func $f)
              (func (export "main")))"#,
    );
    assert_eq!(r.err(), Some(TranslateError::NegativeElementOffset { offset: -1 }));
}

#[test]
fn a_module_of_exported_syscall_imports_gets_stubs() {
    let t = translate(
        r#"(module
              (import "syscall" "System.Runtime.GetTime" (func $t (result i64)))
              (export "getTime" (func $t)))"#,
    )
    .expect("translation succeeds");
    assert_eq!(t.methods.len(), 1);
    let m = &t.methods[0];
    assert_eq!(m.name, "getTime");
    assert_eq!(m.return_type, "Integer");
    assert!(m.parameters.is_empty());
    assert!(!m.safe);
    let o = m.offset as usize;
    let hash = lookup("System.Runtime.GetTime").unwrap().hash;
    let mut expected = vec![op("SYSCALL")];
    expected.extend_from_slice(&hash.to_le_bytes());
    expected.push(op("RET"));
    assert_eq!(&t.script[o..o + 6], &expected[..]);
}
