use wasm_neovm::header::validate_wasm_header;

#[test]
fn rejects_short_input() {
    let err = validate_wasm_header(&[]).unwrap_err().describe();
    assert!(err.contains("not a valid WebAssembly module"), "{err}");
    assert!(validate_wasm_header(&[0x00, 0x61, 0x73]).is_err());
}

#[test]
fn rejects_bad_magic() {
    let err = validate_wasm_header(&[0xde, 0xad, 0xbe, 0xef, 0x01, 0x00, 0x00, 0x00])
        .unwrap_err()
        .describe();
    assert!(err.contains("bad magic number"), "{err}");
}

#[test]
fn rejects_bad_version() {
    let err = validate_wasm_header(&[0x00, 0x61, 0x73, 0x6d, 0x02, 0x00, 0x00, 0x00])
        .unwrap_err()
        .describe();
    assert!(err.contains("unsupported WebAssembly version"), "{err}");
}

#[test]
fn accepts_valid_preamble() {
    assert!(validate_wasm_header(&[0x00, 0x61, 0x73, 0x6d, 0x01, 0x00, 0x00, 0x00]).is_ok());
}
