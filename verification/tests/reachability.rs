use wasm_neovm::reachability::analyze_reachable_defined_functions;

#[test]
fn reachability_skips_unreferenced_defined_functions() {
    let wasm = wat::parse_str(
        r#"(module
              (func $dead (result i32)
                i32.const 999)
              (func $leaf (result i32)
                i32.const 7)
              (func $mid (result i32)
                call $leaf)
              (func (export "main") (result i32)
                call $mid))"#,
    )
    .expect("valid wat");

    let reachable = analyze_reachable_defined_functions(&wasm).expect("analysis succeeds");

    assert!(
        !reachable.contains(&0),
        "dead function should be unreachable"
    );
    assert!(reachable.contains(&1));
    assert!(reachable.contains(&2));
    assert!(reachable.contains(&3));
    assert_eq!(reachable.len(), 3);
}

#[test]
fn reachability_includes_table_functions_when_indirect_calls_are_used() {
    let wasm = wat::parse_str(
        r#"(module
              (type $t (func (result i32)))
              (table 2 funcref)
              (func $f0 (type $t) (result i32)
                i32.const 10)
              (func $f1 (type $t) (result i32)
                i32.const 20)
              (func (export "main") (type $t) (result i32)
                i32.const 0
                call_indirect (type $t))
              (elem (i32.const 0) $f0 $f1))"#,
    )
    .expect("valid wat");

    let reachable = analyze_reachable_defined_functions(&wasm).expect("analysis succeeds");

    assert!(reachable.contains(&0));
    assert!(reachable.contains(&1));
    assert!(reachable.contains(&2));
    assert_eq!(reachable.len(), 3);
}

#[test]
fn reachability_passes_over_global_imports_and_memories() {
    let wasm = wat::parse_str(
        r#"(module
              (import "env" "g" (global i32))
              (import "env" "f" (func $imported))
              (memory 1)
              (func $unused)
              (func (export "main")
                call $imported))"#,
    )
    .expect("valid wat");

    let reachable = analyze_reachable_defined_functions(&wasm).expect("analysis succeeds");

    assert_eq!(reachable, vec![2]);
}
