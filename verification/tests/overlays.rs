use wasm_neovm::errors::TranslateError;
use wasm_neovm::json::{collect_safe_methods, JsonValue};
use wasm_neovm::translate::{
    embedded_manifest_payloads, mark_safe_methods, translate_with_config, ManifestMethod,
    TranslationConfig,
};

fn obj(members: Vec<(&str, JsonValue)>) -> JsonValue {
    JsonValue::Object(members.into_iter().map(|(k, v)| (k.to_string(), v)).collect())
}

fn method(name: &str, safe: bool) -> JsonValue {
    obj(vec![("name", JsonValue::String(name.to_string())), ("safe", JsonValue::Bool(safe))])
}

fn overlay(methods: Vec<JsonValue>) -> JsonValue {
    obj(vec![("abi", obj(vec![("methods", JsonValue::Array(methods))]))])
}

#[test]
fn collects_safe_methods_at_any_depth() {
    let value = obj(vec![
        ("abi", obj(vec![("methods", JsonValue::Array(vec![method("a", true), method("b", false)]))])),
        ("nested", JsonValue::Array(vec![overlay(vec![method("c", true), method("a", true)])])),
    ]);
    let mut acc = Vec::new();
    collect_safe_methods(&value, &mut acc);
    acc.sort();
    assert_eq!(acc, vec!["a".to_string(), "c".to_string()]);
}

#[test]
fn ignores_methods_without_a_true_safe_flag() {
    let value = overlay(vec![
        obj(vec![("name", JsonValue::String("x".to_string()))]),
        obj(vec![("name", JsonValue::String("y".to_string())), ("safe", JsonValue::String("true".to_string()))]),
        obj(vec![("safe", JsonValue::Bool(true))]),
        JsonValue::Null,
    ]);
    let mut acc = Vec::new();
    collect_safe_methods(&value, &mut acc);
    assert!(acc.is_empty());
}

fn manifest_method(name: &str) -> ManifestMethod {
    ManifestMethod {
        name: name.to_string(),
        parameters: Vec::new(),
        return_type: "Void",
        offset: 0,
        safe: false,
    }
}

#[test]
fn marks_the_first_method_of_each_safe_name() {
    let mut methods = vec![manifest_method("get"), manifest_method("put"), manifest_method("get")];
    mark_safe_methods(&mut methods, vec!["get".to_string()]).unwrap();
    assert!(methods[0].safe);
    assert!(!methods[1].safe);
    assert!(!methods[2].safe);
}

#[test]
fn reports_safe_names_without_a_method_in_order() {
    let mut methods = vec![manifest_method("get")];
    let err = mark_safe_methods(
        &mut methods,
        vec!["zeta".to_string(), "get".to_string(), "alpha".to_string()],
    )
    .unwrap_err();
    assert_eq!(
        err,
        TranslateError::UnexportedSafeMethods { names: vec!["alpha".to_string(), "zeta".to_string()] }
    );
    assert!(methods[0].safe);
}

#[test]
fn overlays_make_exported_methods_safe() {
    let wasm = wat::parse_str(
        r#"(module
              (func (export "get") (result i32) i32.const 1)
              (func (export "put")))"#,
    )
    .unwrap();
    let config = TranslationConfig {
        contract_name: "Contract".to_string(),
        manifest_overlays: vec![overlay(vec![method("get", true)])],
    };
    let t = translate_with_config(&wasm, config).unwrap();
    assert_eq!(t.methods[0].name, "get");
    assert!(t.methods[0].safe);
    assert!(!t.methods[1].safe);
}

#[test]
fn overlays_naming_unexported_methods_are_rejected() {
    let wasm = wat::parse_str(r#"(module (func (export "get")))"#).unwrap();
    let config = TranslationConfig {
        contract_name: "Contract".to_string(),
        manifest_overlays: vec![overlay(vec![method("missing", true)])],
    };
    let err = translate_with_config(&wasm, config).err().unwrap();
    assert_eq!(err, TranslateError::UnexportedSafeMethods { names: vec!["missing".to_string()] });
}

fn with_custom_section(mut wasm: Vec<u8>, name: &str, payload: &[u8]) -> Vec<u8> {
    let mut body = vec![name.len() as u8];
    body.extend_from_slice(name.as_bytes());
    body.extend_from_slice(payload);
    wasm.push(0);
    wasm.push(body.len() as u8);
    wasm.extend(body);
    wasm
}

#[test]
fn finds_embedded_manifest_sections() {
    let wasm = wat::parse_str(r#"(module (func (export "get")))"#).unwrap();
    let wasm = with_custom_section(wasm, "neo.manifest", b"{\"a\":1}");
    let wasm = with_custom_section(wasm, "other", b"xyz");
    let payloads = embedded_manifest_payloads(&wasm).unwrap();
    assert_eq!(payloads, vec![b"{\"a\":1}".to_vec()]);
}
