use wasm_neovm::opcodes::lookup_opcode;
use wasm_neovm::syscalls::lookup;
use wasm_neovm::tokens::infer_contract_tokens;

fn opcode(name: &str) -> u8 {
    lookup_opcode(name)
        .unwrap_or_else(|| panic!("missing opcode {name}"))
        .byte
}

#[test]
fn infer_contract_tokens_skips_param_count_overflow() {
    let push0 = opcode("PUSH0");
    let pushint8 = opcode("PUSHINT8");
    let pushint32 = opcode("PUSHINT32");
    let pushdata1 = opcode("PUSHDATA1");
    let pack = opcode("PACK");
    let syscall = opcode("SYSCALL");

    let call_hash = lookup("System.Contract.Call")
        .expect("System.Contract.Call syscall exists")
        .hash;

    let mut script = Vec::new();

    script.push(pushdata1);
    script.push(20);
    script.extend(1u8..=20);

    script.push(pushdata1);
    script.push(4);
    script.extend_from_slice("ping".as_bytes());

    script.push(pushint8);
    script.push(5);

    script.extend(std::iter::repeat(push0).take(70_000));

    script.push(pushint32);
    script.extend_from_slice(&70_000i32.to_le_bytes());
    script.push(pack);

    script.push(syscall);
    script.extend_from_slice(&call_hash.to_le_bytes());

    let tokens = infer_contract_tokens(&script);
    assert!(tokens.is_empty());
}

#[test]
fn infer_contract_tokens_skips_param_count_that_overflows_usize() {
    let pushint8 = opcode("PUSHINT8");
    let pushint128 = opcode("PUSHINT128");
    let pushdata1 = opcode("PUSHDATA1");
    let pack = opcode("PACK");
    let syscall = opcode("SYSCALL");

    let call_hash = lookup("System.Contract.Call")
        .expect("System.Contract.Call syscall exists")
        .hash;

    let mut script = Vec::new();

    script.push(pushdata1);
    script.push(20);
    script.extend(1u8..=20);

    script.push(pushdata1);
    script.push(4);
    script.extend_from_slice("ping".as_bytes());

    script.push(pushint8);
    script.push(5);

    let overflow_count = (u64::MAX as i128) + 1;
    script.push(pushint128);
    script.extend_from_slice(&overflow_count.to_le_bytes());
    script.push(pack);

    script.push(syscall);
    script.extend_from_slice(&call_hash.to_le_bytes());

    let tokens = infer_contract_tokens(&script);
    assert!(tokens.is_empty());
}

#[test]
fn infer_contract_tokens_ignores_jump_operand_bytes() {
    let jmp_l = opcode("JMP_L");
    let syscall = opcode("SYSCALL");
    let runtime_log_hash = lookup("System.Runtime.Log")
        .expect("System.Runtime.Log syscall exists")
        .hash
        .to_le_bytes();

    let script = vec![
        jmp_l,
        syscall,
        runtime_log_hash[0],
        runtime_log_hash[1],
        runtime_log_hash[2],
        runtime_log_hash[3],
    ];

    let tokens = infer_contract_tokens(&script);
    assert!(tokens.is_empty());
}

#[test]
fn infer_contract_tokens_reads_a_contract_call() {
    let pushint8 = opcode("PUSHINT8");
    let pushdata1 = opcode("PUSHDATA1");
    let push0 = opcode("PUSH0");
    let pack = opcode("PACK");
    let syscall = opcode("SYSCALL");
    let call_hash = lookup("System.Contract.Call").unwrap().hash;

    let mut script = Vec::new();
    // contract hash
    script.push(pushdata1);
    script.push(20);
    script.extend(1u8..=20);
    // method name
    script.push(pushdata1);
    script.push(4);
    script.extend_from_slice("ping".as_bytes());
    // call flags
    script.push(pushint8);
    script.push(15);
    // one argument, packed
    script.push(push0);
    script.push(opcode("PUSH1"));
    script.push(pack);
    script.push(syscall);
    script.extend_from_slice(&call_hash.to_le_bytes());

    let tokens = infer_contract_tokens(&script);
    assert_eq!(tokens.len(), 1);
    let token = &tokens[0];
    assert_eq!(token.method, "ping");
    assert_eq!(token.parameters_count, 1);
    assert_eq!(token.call_flags, 15);
    let expected: Vec<u8> = (1u8..=20).collect();
    assert_eq!(token.contract_hash.to_vec(), expected);
    assert!(token.has_return_value);
}

#[test]
fn infer_contract_tokens_records_other_syscalls_by_name() {
    let syscall = opcode("SYSCALL");
    let drop = opcode("DROP");
    let log_hash = lookup("System.Runtime.Log").unwrap().hash;
    let mut script = vec![syscall];
    script.extend_from_slice(&log_hash.to_le_bytes());
    script.push(drop);
    let tokens = infer_contract_tokens(&script);
    assert_eq!(tokens.len(), 1);
    assert_eq!(tokens[0].method, "System.Runtime.Log");
    assert_eq!(tokens[0].parameters_count, 0);
    assert_eq!(tokens[0].contract_hash, [0u8; 20]);
    assert!(!tokens[0].has_return_value);
}
