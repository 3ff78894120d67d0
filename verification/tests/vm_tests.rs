use thunder::gas::{gas_cost, GasError, GasMeter};
use thunder::keymap::KeyedMap;
use thunder::opcode::{Instruction, OpCode};
use thunder::vm::{ExecutionContext, ThunderVm, VmError};

// ── opcodes ────────────────────────────────────────────────────────────────

#[test]
fn test_opcode_roundtrip() {
    let opcodes = [
        OpCode::Push,
        OpCode::Add,
        OpCode::Eq,
        OpCode::Jump,
        OpCode::SLoad,
        OpCode::Caller,
        OpCode::Log,
        OpCode::Require,
    ];
    for op in opcodes {
        let byte = op.to_byte();
        let decoded = OpCode::from_byte(byte).unwrap();
        assert_eq!(op, decoded);
    }
}

#[test]
fn test_invalid_opcode() {
    assert!(OpCode::from_byte(0xFF).is_none());
}

#[test]
fn every_byte_roundtrips_or_is_invalid() {
    for b in 0u8..=255 {
        if let Some(op) = OpCode::from_byte(b) {
            assert_eq!(op.to_byte(), b);
        }
    }
    assert_eq!(OpCode::Push.to_byte(), 0x01);
    assert_eq!(OpCode::from_byte(0x73), Some(OpCode::Timestamp));
}

#[test]
fn instruction_constructors() {
    let i = Instruction::new(OpCode::Add);
    assert_eq!(i.operand, 0);
    assert!(i.data.is_empty());
    let j = Instruction::with_operand(OpCode::Push, 7);
    assert_eq!(j.operand, 7);
    let k = Instruction::with_data(OpCode::Push, vec![1, 2]);
    assert_eq!(k.data, vec![1, 2]);
    assert_eq!(k.operand, 0);
}

// ── gas ────────────────────────────────────────────────────────────────────

#[test]
fn test_gas_meter_basic() {
    let mut meter = GasMeter::new(100);
    assert!(meter.consume(50).is_ok());
    assert_eq!(meter.remaining(), 50);
    assert_eq!(meter.used(), 50);
}

#[test]
fn test_gas_meter_exact_limit() {
    let mut meter = GasMeter::new(100);
    assert!(meter.consume(100).is_ok());
    assert_eq!(meter.remaining(), 0);
}

#[test]
fn test_gas_meter_out_of_gas() {
    let mut meter = GasMeter::new(100);
    assert!(meter.consume(101).is_err());
}

#[test]
fn test_opcode_gas_cost() {
    assert!(gas_cost(OpCode::SStore) > gas_cost(OpCode::Add));
    assert!(gas_cost(OpCode::Transfer) > gas_cost(OpCode::Caller));
}

#[test]
fn test_consume_opcode() {
    let mut meter = GasMeter::new(10);
    assert!(meter.consume_opcode(OpCode::Push).is_ok());
    assert!(meter.consume_opcode(OpCode::Push).is_ok());
    assert!(meter.consume_opcode(OpCode::Add).is_ok());
    assert_eq!(meter.used(), 7);
}

#[test]
fn out_of_gas_error_reports_limit_and_attempt() {
    let mut meter = GasMeter::new(10);
    meter.consume(4).unwrap();
    assert_eq!(meter.consume(7), Err(GasError::OutOfGas { limit: 10, used: 11 }));
    assert_eq!(meter.used(), 11);
    assert_eq!(meter.remaining(), 0);
}

#[test]
fn gas_cost_values() {
    assert_eq!(gas_cost(OpCode::Push), 2);
    assert_eq!(gas_cost(OpCode::Add), 3);
}

// ── virtual machine ────────────────────────────────────────────────────────

fn default_ctx() -> ExecutionContext {
    ExecutionContext { caller: [1u8; 20], contract_address: [2u8; 20], value: 0, timestamp: 1000, block_height: 42 }
}

#[test]
fn test_add() {
    let program = vec![
        Instruction::with_operand(OpCode::Push, 10),
        Instruction::with_operand(OpCode::Push, 20),
        Instruction::new(OpCode::Add),
        Instruction::new(OpCode::Halt),
    ];
    let mut vm = ThunderVm::new(program, default_ctx(), 100_000, KeyedMap::new());
    let result = vm.execute().unwrap();
    assert_eq!(result.return_value, Some(30));
    assert!(!result.reverted);
}

#[test]
fn test_sub_mul() {
    let program = vec![
        Instruction::with_operand(OpCode::Push, 50),
        Instruction::with_operand(OpCode::Push, 30),
        Instruction::new(OpCode::Sub),
        Instruction::with_operand(OpCode::Push, 3),
        Instruction::new(OpCode::Mul),
        Instruction::new(OpCode::Halt),
    ];
    let mut vm = ThunderVm::new(program, default_ctx(), 100_000, KeyedMap::new());
    let result = vm.execute().unwrap();
    assert_eq!(result.return_value, Some(60));
}

#[test]
fn test_division_by_zero() {
    let program = vec![
        Instruction::with_operand(OpCode::Push, 10),
        Instruction::with_operand(OpCode::Push, 0),
        Instruction::new(OpCode::Div),
    ];
    let mut vm = ThunderVm::new(program, default_ctx(), 100_000, KeyedMap::new());
    let result = vm.execute();
    assert!(result.is_err());
}

#[test]
fn test_comparison() {
    let program = vec![
        Instruction::with_operand(OpCode::Push, 10),
        Instruction::with_operand(OpCode::Push, 20),
        Instruction::new(OpCode::Lt),
        Instruction::new(OpCode::Halt),
    ];
    let mut vm = ThunderVm::new(program, default_ctx(), 100_000, KeyedMap::new());
    let result = vm.execute().unwrap();
    assert_eq!(result.return_value, Some(1));
}

#[test]
fn test_conditional_jump() {
    let program = vec![
        Instruction::with_operand(OpCode::Push, 1),
        Instruction::with_operand(OpCode::JumpIf, 3),
        Instruction::with_operand(OpCode::Push, 999),
        Instruction::with_operand(OpCode::Push, 100),
        Instruction::new(OpCode::Halt),
    ];
    let mut vm = ThunderVm::new(program, default_ctx(), 100_000, KeyedMap::new());
    let result = vm.execute().unwrap();
    assert_eq!(result.return_value, Some(100));
}

#[test]
fn test_local_variables() {
    let program = vec![
        Instruction::with_operand(OpCode::Push, 42),
        Instruction::with_operand(OpCode::StoreLocal, 0),
        Instruction::with_operand(OpCode::Push, 0),
        Instruction::new(OpCode::Pop),
        Instruction::with_operand(OpCode::LoadLocal, 0),
        Instruction::new(OpCode::Halt),
    ];
    let mut vm = ThunderVm::new(program, default_ctx(), 100_000, KeyedMap::new());
    let result = vm.execute().unwrap();
    assert_eq!(result.return_value, Some(42));
}

#[test]
fn test_storage() {
    let program = vec![
        Instruction::with_operand(OpCode::Push, 1),
        Instruction::with_operand(OpCode::Push, 999),
        Instruction::new(OpCode::SStore),
        Instruction::with_operand(OpCode::Push, 1),
        Instruction::new(OpCode::SLoad),
        Instruction::new(OpCode::Halt),
    ];
    let mut vm = ThunderVm::new(program, default_ctx(), 100_000, KeyedMap::new());
    let result = vm.execute().unwrap();
    assert_eq!(result.return_value, Some(999));
}

#[test]
fn test_require_pass() {
    let program = vec![
        Instruction::with_operand(OpCode::Push, 1),
        Instruction::new(OpCode::Require),
        Instruction::with_operand(OpCode::Push, 42),
        Instruction::new(OpCode::Halt),
    ];
    let mut vm = ThunderVm::new(program, default_ctx(), 100_000, KeyedMap::new());
    let result = vm.execute().unwrap();
    assert_eq!(result.return_value, Some(42));
    assert!(!result.reverted);
}

#[test]
fn test_require_fail() {
    let program = vec![
        Instruction::with_operand(OpCode::Push, 0),
        Instruction::new(OpCode::Require),
        Instruction::with_operand(OpCode::Push, 42),
        Instruction::new(OpCode::Halt),
    ];
    let mut vm = ThunderVm::new(program, default_ctx(), 100_000, KeyedMap::new());
    let result = vm.execute().unwrap();
    assert!(result.reverted);
    assert!(result.revert_reason.is_some());
}

#[test]
fn test_out_of_gas() {
    let program = vec![
        Instruction::with_operand(OpCode::Push, 1),
        Instruction::with_operand(OpCode::Push, 2),
        Instruction::new(OpCode::Add),
        Instruction::new(OpCode::Halt),
    ];
    let mut vm = ThunderVm::new(program, default_ctx(), 3, KeyedMap::new());
    let result = vm.execute();
    assert!(result.is_err());
}

#[test]
fn test_blockchain_context() {
    let program = vec![Instruction::new(OpCode::Timestamp), Instruction::new(OpCode::Halt)];
    let mut vm = ThunderVm::new(program, default_ctx(), 100_000, KeyedMap::new());
    let result = vm.execute().unwrap();
    assert_eq!(result.return_value, Some(1000));
}

#[test]
fn test_log_event() {
    let program = vec![
        Instruction::with_operand(OpCode::Push, 42),
        Instruction::with_operand(OpCode::Push, 1001),
        Instruction::with_operand(OpCode::Push, 1),
        Instruction::new(OpCode::Log),
        Instruction::new(OpCode::Halt),
    ];
    let mut vm = ThunderVm::new(program, default_ctx(), 100_000, KeyedMap::new());
    let result = vm.execute().unwrap();
    assert_eq!(result.logs.len(), 1);
    assert_eq!(result.logs[0].topics, vec![1001]);
    assert_eq!(result.logs[0].data, 42);
}

#[test]
fn stack_underflow_is_an_error() {
    let program = vec![Instruction::new(OpCode::Add)];
    let mut vm = ThunderVm::new(program, default_ctx(), 100_000, KeyedMap::new());
    assert!(matches!(vm.execute(), Err(VmError::StackUnderflow)));
}

#[test]
fn out_of_gas_message_text() {
    let program = vec![
        Instruction::with_operand(OpCode::Push, 1),
        Instruction::with_operand(OpCode::Push, 2),
        Instruction::new(OpCode::Add),
    ];
    let mut vm = ThunderVm::new(program, default_ctx(), 3, KeyedMap::new());
    match vm.execute() {
        Err(VmError::OutOfGas(m)) => assert_eq!(m, "out of gas: limit 3, used 4"),
        Err(e) => panic!("unexpected error {:?}", e),
        Ok(_) => panic!("expected out of gas"),
    }
}

#[test]
fn division_by_zero_error_variant() {
    let program = vec![
        Instruction::with_operand(OpCode::Push, 10),
        Instruction::with_operand(OpCode::Push, 0),
        Instruction::new(OpCode::Mod),
    ];
    let mut vm = ThunderVm::new(program, default_ctx(), 100_000, KeyedMap::new());
    assert!(matches!(vm.execute(), Err(VmError::DivisionByZero)));
}

#[test]
fn storage_write_then_read_other_key() {
    let program = vec![
        Instruction::with_operand(OpCode::Push, 1),
        Instruction::with_operand(OpCode::Push, 999),
        Instruction::new(OpCode::SStore),
        Instruction::with_operand(OpCode::Push, 2),
        Instruction::new(OpCode::SLoad),
        Instruction::new(OpCode::Halt),
    ];
    let mut vm = ThunderVm::new(program, default_ctx(), 100_000, KeyedMap::new());
    assert_eq!(vm.execute().unwrap().return_value, Some(0));
}

#[test]
fn gas_used_is_sum_of_costs() {
    let program = vec![
        Instruction::with_operand(OpCode::Push, 10),
        Instruction::with_operand(OpCode::Push, 20),
        Instruction::new(OpCode::Add),
        Instruction::new(OpCode::Halt),
    ];
    let mut vm = ThunderVm::new(program, default_ctx(), 100_000, KeyedMap::new());
    let r = vm.execute().unwrap();
    let expected = gas_cost(OpCode::Push) * 2 + gas_cost(OpCode::Add) + gas_cost(OpCode::Halt);
    assert_eq!(r.gas_used, expected);
}

#[test]
fn infinite_loop_runs_out_of_gas() {
    let program = vec![Instruction::with_operand(OpCode::Jump, 0)];
    let mut vm = ThunderVm::new(program, default_ctx(), 100, KeyedMap::new());
    match vm.execute() {
        Err(VmError::OutOfGas(m)) => assert_eq!(m, "out of gas: limit 100, used 104"),
        other => panic!("expected out of gas, got {:?}", other.map(|r| r.gas_used)),
    }
}

#[test]
fn terminating_program_runs_with_the_largest_gas_limit() {
    let program = vec![
        Instruction::with_operand(OpCode::Push, 1),
        Instruction::with_operand(OpCode::Push, 2),
        Instruction::new(OpCode::Add),
        Instruction::new(OpCode::Halt),
    ];
    let mut vm = ThunderVm::new(program, default_ctx(), u64::MAX, KeyedMap::new());
    let r = vm.execute().unwrap();
    assert_eq!(r.return_value, Some(3));
    assert_eq!(r.gas_used, 2 + 2 + 3);
    let mut empty = ThunderVm::new(vec![], default_ctx(), u64::MAX, KeyedMap::new());
    let r = empty.execute().unwrap();
    assert_eq!((r.gas_used, r.return_value, r.reverted), (0, None, false));
}

#[test]
fn new_machine_holds_the_given_storage_and_no_logs() {
    let mut st = KeyedMap::new();
    st.insert(vec![1, 2], vec![3]);
    let vm = ThunderVm::new(vec![], default_ctx(), 10, st);
    assert_eq!(vm.storage().get(&[1u8, 2]), Some(&vec![3u8]));
    assert_eq!(vm.storage().len(), 1);
    assert!(vm.logs().is_empty());
}

#[test]
fn out_of_gas_reverts_storage_writes() {
    let program = vec![
        Instruction::with_operand(OpCode::Push, 1),
        Instruction::with_operand(OpCode::Push, 2),
        Instruction::new(OpCode::SStore),
        Instruction::with_operand(OpCode::Push, 3),
        Instruction::new(OpCode::Halt),
    ];
    let limit = gas_cost(OpCode::Push) * 2 + gas_cost(OpCode::SStore);
    let mut start = KeyedMap::new();
    start.insert(vec![9u8], vec![7u8]);
    let mut vm = ThunderVm::new(program, default_ctx(), limit, start);
    assert!(matches!(vm.execute(), Err(VmError::OutOfGas(_))));
    // The write of the run is gone; what was there before stays.
    assert_eq!(vm.storage().len(), 1);
    assert_eq!(vm.storage().get(&[9u8]), Some(&vec![7u8]));
    assert!(vm.logs().is_empty());
}

#[test]
fn storage_write_stays_when_the_run_halts() {
    let program = vec![
        Instruction::with_operand(OpCode::Push, 1),
        Instruction::with_operand(OpCode::Push, 2),
        Instruction::new(OpCode::SStore),
        Instruction::new(OpCode::Halt),
    ];
    let mut vm = ThunderVm::new(program, default_ctx(), 100_000, KeyedMap::new());
    assert!(vm.execute().is_ok());
    assert_eq!(vm.storage().len(), 1);
}
