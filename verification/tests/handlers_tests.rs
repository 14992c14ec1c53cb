use bus_mapping::circuit_input_builder::{build_block, BlockContext, BuildError, TxInput};
use bus_mapping::opcode::{
    handler_of, CallKind, Handler, ADD, CALL, DELEGATECALL, DUP1, JUMPDEST, LOG0, MLOAD, MSTORE,
    MSTORE8, POP, PUSH1, RETURN, SLOAD, SSTORE, STOP, SWAP1, TLOAD, TSTORE,
};
use bus_mapping::operation::{
    AccountField, CallContextField, Op, Operation, RwReference, StackAddress, Target,
    TxReceiptField, RW,
};
use bus_mapping::state::AccountState;
use bus_mapping::trace::{Error, GethExecStep, GethExecTrace, Stack, Storage};
use bus_mapping::word::{Address, Word};

const SENDER: Address = Address { hi: 0, mid: 0, lo: 0xa1 };
const RECIPIENT: Address = Address { hi: 0, mid: 0, lo: 0xb2 };

fn context() -> BlockContext {
    BlockContext { number: 1, timestamp: 2, base_fee: Word::from_u64(3), coinbase: SENDER }
}

fn transaction() -> TxInput {
    TxInput {
        from: SENDER,
        to: Some(RECIPIENT),
        value: Word::zero(),
        gas_limit: 100_000,
        call_data: vec![1, 2, 3],
        nonce: 5,
    }
}

fn words(values: &[u64]) -> Vec<Word> {
    values.iter().map(|v| Word::from_u64(*v)).collect()
}

fn record(op: u8, depth: u32, stack: &[u64]) -> GethExecStep {
    GethExecStep {
        pc: 0,
        op,
        gas: 0,
        depth,
        stack: Stack(words(stack)),
        memory: vec![],
        storage: Storage(vec![]),
        error: None,
    }
}

fn trace(struct_logs: Vec<GethExecStep>) -> GethExecTrace {
    GethExecTrace { failed: false, struct_logs }
}

fn build(struct_logs: Vec<GethExecStep>) -> Result<Vec<Operation>, BuildError> {
    let block = build_block(context(), vec![], &vec![(transaction(), trace(struct_logs))])?;
    Ok(block.container.operations().clone())
}

fn malformed(step_index: usize, opcode: u8) -> Option<BuildError> {
    Some(BuildError { error: Error::TraceMalformed, tx_index: 0, step_index, opcode })
}

fn inconsistent(step_index: usize, opcode: u8) -> Option<BuildError> {
    Some(BuildError { error: Error::CallDepthInconsistent, tx_index: 0, step_index, opcode })
}

fn stack_op(rwc: usize, rw: RW, call_id: usize, address: usize, value: u64) -> Operation {
    Operation {
        rwc,
        rw,
        op: Op::Stack { call_id, address: StackAddress(address), value: Word::from_u64(value) },
    }
}

#[test]
fn the_frame_of_a_transaction_is_opened_by_seven_writes() {
    let ops = build(vec![record(STOP, 0, &[])]).unwrap();
    let field = |rwc: usize, field: CallContextField, value: Word| Operation {
        rwc,
        rw: RW::WRITE,
        op: Op::CallContext { call_id: 1, field, value },
    };
    assert_eq!(
        ops[..7].to_vec(),
        vec![
            field(1, CallContextField::TxId, Word::from_u64(0)),
            field(2, CallContextField::Depth, Word::from_u64(0)),
            field(3, CallContextField::CallerAddress, Word::from_u64(0xa1)),
            field(4, CallContextField::CalleeAddress, Word::from_u64(0xb2)),
            field(5, CallContextField::IsStatic, Word::from_u64(0)),
            field(6, CallContextField::IsCreate, Word::from_u64(0)),
            field(7, CallContextField::ReturnPc, Word::from_u64(0)),
        ]
    );
}

#[test]
fn the_receipt_closes_the_transaction() {
    let ops = build(vec![record(STOP, 0, &[])]).unwrap();
    assert_eq!(
        ops[7..].to_vec(),
        vec![
            Operation {
                rwc: 8,
                rw: RW::WRITE,
                op: Op::TxReceipt { tx_id: 0, field: TxReceiptField::PostStateOrStatus, value: 1 },
            },
            Operation {
                rwc: 9,
                rw: RW::WRITE,
                op: Op::TxReceipt { tx_id: 0, field: TxReceiptField::LogLength, value: 0 },
            },
        ]
    );
}

#[test]
fn a_failed_transaction_has_status_zero() {
    let failed = GethExecTrace { failed: true, struct_logs: vec![record(STOP, 0, &[])] };
    let block = build_block(context(), vec![], &vec![(transaction(), failed)]).unwrap();
    assert_eq!(
        block.container.operations_of(Target::TxReceipt)[0].op,
        Op::TxReceipt { tx_id: 0, field: TxReceiptField::PostStateOrStatus, value: 0 }
    );
}

#[test]
fn an_addition_reads_two_words_and_writes_one() {
    let ops = build(vec![
        record(PUSH1, 0, &[]),
        record(PUSH1, 0, &[2]),
        record(ADD, 0, &[3, 2]),
        record(STOP, 0, &[5]),
    ])
    .unwrap();
    assert_eq!(
        ops[7..12].to_vec(),
        vec![
            stack_op(8, RW::WRITE, 1, 1023, 2),
            stack_op(9, RW::WRITE, 1, 1022, 3),
            stack_op(10, RW::READ, 1, 1022, 3),
            stack_op(11, RW::READ, 1, 1023, 2),
            stack_op(12, RW::WRITE, 1, 1023, 5),
        ]
    );
    assert_eq!(ops.len(), 14);
}

#[test]
fn the_steps_hold_the_handles_to_their_operations() {
    let block = build_block(
        context(),
        vec![],
        &vec![(
            transaction(),
            trace(vec![
                record(PUSH1, 0, &[]),
                record(PUSH1, 0, &[2]),
                record(ADD, 0, &[3, 2]),
                record(STOP, 0, &[5]),
            ]),
        )],
    )
    .unwrap();
    let steps = &block.txs[0].steps;
    assert_eq!(steps.len(), 4);
    assert_eq!(steps[0].bus_mapping_instance, vec![RwReference { target: Target::Stack, rwc: 8 }]);
    assert_eq!(
        steps[2].bus_mapping_instance,
        vec![
            RwReference { target: Target::Stack, rwc: 10 },
            RwReference { target: Target::Stack, rwc: 11 },
            RwReference { target: Target::Stack, rwc: 12 },
        ]
    );
    assert_eq!(steps[2].op, ADD);
    assert!(steps[3].bus_mapping_instance.is_empty());
    assert_eq!(block.container.get(steps[2].bus_mapping_instance[2]), Some(stack_op(12, RW::WRITE, 1, 1023, 5)));
    assert_eq!(block.container.get(RwReference { target: Target::Memory, rwc: 12 }), None);
    assert_eq!(block.container.get(RwReference { target: Target::Stack, rwc: 0 }), None);
    assert_eq!(block.container.get(RwReference { target: Target::Stack, rwc: 15 }), None);
    assert_eq!(block.txs[0].call_data, vec![1, 2, 3]);
    assert_eq!(block.txs[0].nonce, 5);
    assert_eq!(block.context, context());
}

#[test]
fn an_addition_without_its_operands_is_malformed() {
    assert_eq!(build(vec![record(ADD, 0, &[3]), record(STOP, 0, &[])]).err(), malformed(0, ADD));
}

#[test]
fn an_instruction_without_a_record_of_its_result_is_malformed() {
    assert_eq!(build(vec![record(ADD, 0, &[3, 2])]).err(), malformed(0, ADD));
    assert_eq!(
        build(vec![record(ADD, 0, &[3, 2]), record(STOP, 0, &[])]).err(),
        malformed(0, ADD)
    );
}

#[test]
fn a_push_onto_a_full_stack_is_malformed() {
    let full = vec![1u64; 1024];
    let more = vec![1u64; 1025];
    assert_eq!(
        build(vec![record(PUSH1, 0, &full), record(STOP, 0, &more)]).err(),
        malformed(0, PUSH1)
    );
    assert_eq!(build(vec![record(POP, 0, &more), record(STOP, 0, &full)]).err(), malformed(0, POP));
    let almost = vec![1u64; 1023];
    let ops = build(vec![record(PUSH1, 0, &almost), record(STOP, 0, &full)]).unwrap();
    assert_eq!(ops[7], stack_op(8, RW::WRITE, 1, 0, 1));
}

#[test]
fn an_unknown_instruction_is_malformed() {
    assert_eq!(handler_of(0x0c), None);
    assert_eq!(build(vec![record(0x0c, 0, &[])]).err(), malformed(0, 0x0c));
    assert_eq!(build(vec![record(JUMPDEST, 0, &[]), record(0xef, 0, &[])]).err(), malformed(1, 0xef));
}

#[test]
fn each_instruction_has_its_handler() {
    assert_eq!(handler_of(ADD), Some(Handler::StackOnly { pops: 2, pushes: 1 }));
    assert_eq!(handler_of(0x08), Some(Handler::StackOnly { pops: 3, pushes: 1 }));
    assert_eq!(handler_of(0x15), Some(Handler::StackOnly { pops: 1, pushes: 1 }));
    assert_eq!(handler_of(0x7f), Some(Handler::StackOnly { pops: 0, pushes: 1 }));
    assert_eq!(handler_of(0x57), Some(Handler::Jumpi));
    assert_eq!(handler_of(0x80), Some(Handler::Dup { depth: 1 }));
    assert_eq!(handler_of(0x8f), Some(Handler::Dup { depth: 16 }));
    assert_eq!(handler_of(0x90), Some(Handler::Swap { depth: 1 }));
    assert_eq!(handler_of(0x9f), Some(Handler::Swap { depth: 16 }));
    assert_eq!(handler_of(0xa0), Some(Handler::Log { topics: 0 }));
    assert_eq!(handler_of(0xa4), Some(Handler::Log { topics: 4 }));
    assert_eq!(handler_of(0xa5), None);
    assert_eq!(handler_of(0xf1), Some(Handler::Call { kind: CallKind::Call }));
    assert_eq!(handler_of(0xf2), Some(Handler::Call { kind: CallKind::CallCode }));
    assert_eq!(handler_of(0xf4), Some(Handler::Call { kind: CallKind::DelegateCall }));
    assert_eq!(handler_of(0xfa), Some(Handler::Call { kind: CallKind::StaticCall }));
    assert_eq!(handler_of(0xf0), Some(Handler::Create { salted: false }));
    assert_eq!(handler_of(0xf5), Some(Handler::Create { salted: true }));
    assert_eq!(handler_of(0x00), Some(Handler::Halt { pops: 0 }));
    assert_eq!(handler_of(0xf3), Some(Handler::Return));
    assert_eq!(handler_of(0xfd), Some(Handler::Return));
    assert_eq!(handler_of(0xfe), Some(Handler::Halt { pops: 0 }));
    assert_eq!(handler_of(0x20), Some(Handler::Keccak));
    assert_eq!(handler_of(0x37), Some(Handler::CopyToMemory { pops: 3, dest: 0, size: 2 }));
    assert_eq!(handler_of(0x39), Some(Handler::CopyToMemory { pops: 3, dest: 0, size: 2 }));
    assert_eq!(handler_of(0x3e), Some(Handler::CopyToMemory { pops: 3, dest: 0, size: 2 }));
    assert_eq!(handler_of(0x3c), Some(Handler::CopyToMemory { pops: 4, dest: 1, size: 3 }));
    assert_eq!(handler_of(0x5e), Some(Handler::Mcopy));
    assert_eq!(
        handler_of(0x30),
        Some(Handler::ContextRead { field: CallContextField::CalleeAddress })
    );
    assert_eq!(
        handler_of(0x33),
        Some(Handler::ContextRead { field: CallContextField::CallerAddress })
    );
    assert_eq!(
        handler_of(0x31),
        Some(Handler::AccountRead { pops: 1, field: AccountField::Balance })
    );
    assert_eq!(
        handler_of(0x3f),
        Some(Handler::AccountRead { pops: 1, field: AccountField::CodeHash })
    );
    assert_eq!(
        handler_of(0x47),
        Some(Handler::AccountRead { pops: 0, field: AccountField::Balance })
    );
    assert_eq!(handler_of(0x32), Some(Handler::StackOnly { pops: 0, pushes: 1 }));
    assert_eq!(handler_of(0x34), Some(Handler::StackOnly { pops: 0, pushes: 1 }));
    assert_eq!(handler_of(0x46), Some(Handler::StackOnly { pops: 0, pushes: 1 }));
    assert_eq!(handler_of(0x48), Some(Handler::StackOnly { pops: 0, pushes: 1 }));
    assert_eq!(handler_of(0x3b), Some(Handler::StackOnly { pops: 1, pushes: 1 }));
    assert_eq!(handler_of(0x5b), Some(Handler::StackOnly { pops: 0, pushes: 0 }));
    assert_eq!(handler_of(0x50), Some(Handler::StackOnly { pops: 1, pushes: 0 }));
    assert_eq!(handler_of(0xff), Some(Handler::Halt { pops: 1 }));
    assert_eq!(handler_of(0x54), Some(Handler::Sload));
    assert_eq!(handler_of(0x55), Some(Handler::Sstore));
    assert_eq!(handler_of(0x5c), Some(Handler::Tload));
    assert_eq!(handler_of(0x5d), Some(Handler::Tstore));
    assert_eq!(handler_of(0x51), Some(Handler::Mload));
    assert_eq!(handler_of(0x52), Some(Handler::Mstore));
    assert_eq!(handler_of(0x53), Some(Handler::Mstore8));
}

#[test]
fn a_copy_reads_below_the_top_and_writes_the_new_top() {
    let ops =
        build(vec![record(DUP1 + 1, 0, &[7, 8, 9]), record(STOP, 0, &[8, 7, 8, 9])]).unwrap();
    assert_eq!(
        ops[7..9].to_vec(),
        vec![stack_op(8, RW::READ, 1, 1022, 8), stack_op(9, RW::WRITE, 1, 1020, 8)]
    );
    assert_eq!(build(vec![record(DUP1 + 1, 0, &[7])]).err(), malformed(0, DUP1 + 1));
    let full = vec![1u64; 1024];
    assert_eq!(build(vec![record(DUP1, 0, &full)]).err(), malformed(0, DUP1));
}

#[test]
fn an_exchange_reads_and_writes_two_words() {
    let ops =
        build(vec![record(SWAP1 + 1, 0, &[7, 8, 9]), record(STOP, 0, &[9, 8, 7])]).unwrap();
    assert_eq!(
        ops[7..11].to_vec(),
        vec![
            stack_op(8, RW::READ, 1, 1023, 9),
            stack_op(9, RW::READ, 1, 1021, 7),
            stack_op(10, RW::WRITE, 1, 1023, 7),
            stack_op(11, RW::WRITE, 1, 1021, 9),
        ]
    );
    assert_eq!(build(vec![record(SWAP1 + 1, 0, &[7, 8])]).err(), malformed(0, SWAP1 + 1));
}

fn with_storage(mut step: GethExecStep, pairs: &[(u64, u64)]) -> GethExecStep {
    step.storage =
        Storage(pairs.iter().map(|(k, v)| (Word::from_u64(*k), Word::from_u64(*v))).collect());
    step
}

fn mark(rwc: usize, slot: u64, is_warm_prev: bool) -> Operation {
    Operation {
        rwc,
        rw: RW::WRITE,
        op: Op::TxAccessListAccount {
            tx_id: 0,
            address: RECIPIENT,
            slot: Word::from_u64(slot),
            is_warm: true,
            is_warm_prev,
        },
    }
}

fn slot(rwc: usize, rw: RW, key: u64, value: u64, value_prev: u64) -> Operation {
    Operation {
        rwc,
        rw,
        op: Op::AccountStorage {
            tx_id: 0,
            address: RECIPIENT,
            key: Word::from_u64(key),
            value: Word::from_u64(value),
            value_prev: Word::from_u64(value_prev),
        },
    }
}

#[test]
fn a_load_marks_the_slot_before_it_reads_it() {
    let ops = build(vec![
        with_storage(record(SLOAD, 0, &[4]), &[(3, 30), (4, 40), (4, 41)]),
        with_storage(record(SLOAD, 0, &[4]), &[(4, 40)]),
        record(STOP, 0, &[40]),
    ])
    .unwrap();
    assert_eq!(
        ops[7..15].to_vec(),
        vec![
            stack_op(8, RW::READ, 1, 1023, 4),
            mark(9, 4, false),
            slot(10, RW::READ, 4, 40, 40),
            stack_op(11, RW::WRITE, 1, 1023, 40),
            stack_op(12, RW::READ, 1, 1023, 4),
            mark(13, 4, true),
            slot(14, RW::READ, 4, 40, 40),
            stack_op(15, RW::WRITE, 1, 1023, 40),
        ]
    );
}

#[test]
fn a_store_marks_the_slot_before_it_writes_it() {
    let ops = build(vec![
        with_storage(record(SSTORE, 0, &[4, 99]), &[(4, 40)]),
        with_storage(record(SSTORE, 0, &[5, 1]), &[(5, 0)]),
        record(STOP, 0, &[]),
    ])
    .unwrap();
    assert_eq!(
        ops[7..15].to_vec(),
        vec![
            stack_op(8, RW::READ, 1, 1022, 4),
            stack_op(9, RW::READ, 1, 1023, 99),
            mark(10, 4, false),
            slot(11, RW::WRITE, 4, 99, 40),
            stack_op(12, RW::READ, 1, 1022, 5),
            stack_op(13, RW::READ, 1, 1023, 1),
            mark(14, 5, false),
            slot(15, RW::WRITE, 5, 1, 0),
        ]
    );
}

#[test]
fn a_load_of_a_slot_that_the_snapshot_lacks_is_malformed() {
    assert_eq!(
        build(vec![with_storage(record(SLOAD, 0, &[4]), &[(3, 30)]), record(STOP, 0, &[0])]).err(),
        malformed(0, SLOAD)
    );
    assert_eq!(build(vec![record(SSTORE, 0, &[4, 1])]).err(), malformed(0, SSTORE));
    assert_eq!(
        build(vec![with_storage(record(SSTORE, 0, &[4]), &[(4, 1)])]).err(),
        malformed(0, SSTORE)
    );
}

#[test]
fn the_slots_are_cold_again_in_the_next_transaction() {
    let one = || {
        trace(vec![with_storage(record(SLOAD, 0, &[4]), &[(4, 40)]), record(STOP, 0, &[40])])
    };
    let block =
        build_block(context(), vec![], &vec![(transaction(), one()), (transaction(), one())])
            .unwrap();
    let marks = block.container.operations_of(Target::TxAccessListAccount);
    assert_eq!(marks.len(), 2);
    assert_eq!(marks[0], mark(9, 4, false));
    assert_eq!(
        marks[1].op,
        Op::TxAccessListAccount {
            tx_id: 1,
            address: RECIPIENT,
            slot: Word::from_u64(4),
            is_warm: true,
            is_warm_prev: false,
        }
    );
    assert_eq!(marks[1].rwc, 22);
}

fn transient(rwc: usize, rw: RW, key: u64, value: u64, value_prev: u64) -> Operation {
    Operation {
        rwc,
        rw,
        op: Op::TransientStorage {
            tx_id: 0,
            address: RECIPIENT,
            key: Word::from_u64(key),
            value: Word::from_u64(value),
            value_prev: Word::from_u64(value_prev),
        },
    }
}

#[test]
fn transient_storage_keeps_the_last_store() {
    let ops = build(vec![
        record(TLOAD, 0, &[4]),
        record(TSTORE, 0, &[4, 11]),
        record(TSTORE, 0, &[4, 12]),
        record(TLOAD, 0, &[4]),
        record(TLOAD, 0, &[5]),
        record(STOP, 0, &[0]),
    ])
    .unwrap();
    assert_eq!(
        ops[7..22].to_vec(),
        vec![
            stack_op(8, RW::READ, 1, 1023, 4),
            transient(9, RW::READ, 4, 0, 0),
            stack_op(10, RW::WRITE, 1, 1023, 0),
            stack_op(11, RW::READ, 1, 1022, 4),
            stack_op(12, RW::READ, 1, 1023, 11),
            transient(13, RW::WRITE, 4, 11, 0),
            stack_op(14, RW::READ, 1, 1022, 4),
            stack_op(15, RW::READ, 1, 1023, 12),
            transient(16, RW::WRITE, 4, 12, 11),
            stack_op(17, RW::READ, 1, 1023, 4),
            transient(18, RW::READ, 4, 12, 12),
            stack_op(19, RW::WRITE, 1, 1023, 12),
            stack_op(20, RW::READ, 1, 1023, 5),
            transient(21, RW::READ, 5, 0, 0),
            stack_op(22, RW::WRITE, 1, 1023, 0),
        ]
    );
    assert_eq!(build(vec![record(TLOAD, 0, &[])]).err(), malformed(0, TLOAD));
    assert_eq!(build(vec![record(TSTORE, 0, &[1])]).err(), malformed(0, TSTORE));
}

fn with_memory(mut step: GethExecStep, memory: Vec<u8>) -> GethExecStep {
    step.memory = memory;
    step
}

fn memory_op(rwc: usize, rw: RW, address: u64, value: u8) -> Operation {
    Operation { rwc, rw, op: Op::Memory { call_id: 1, address, value } }
}

#[test]
fn a_load_from_memory_reads_32_bytes() {
    let memory: Vec<u8> = (0u8..40).collect();
    let ops = build(vec![with_memory(record(MLOAD, 0, &[3]), memory), record(STOP, 0, &[0])])
        .unwrap();
    assert_eq!(ops[7], stack_op(8, RW::READ, 1, 1023, 3));
    for k in 0..32 {
        assert_eq!(ops[8 + k], memory_op(9 + k, RW::READ, 3 + k as u64, 3 + k as u8));
    }
    // The bytes 3, 4, .., 34, the most significant first.
    let word = Word {
        l3: 0x0304_0506_0708_090a,
        l2: 0x0b0c_0d0e_0f10_1112,
        l1: 0x1314_1516_1718_191a,
        l0: 0x1b1c_1d1e_1f20_2122,
    };
    assert_eq!(
        ops[40],
        Operation {
            rwc: 41,
            rw: RW::WRITE,
            op: Op::Stack { call_id: 1, address: StackAddress(1023), value: word },
        }
    );
    assert_eq!(ops.len(), 43);
}

#[test]
fn a_load_beyond_the_snapshot_of_memory_is_malformed() {
    let memory: Vec<u8> = (0u8..40).collect();
    assert_eq!(
        build(vec![with_memory(record(MLOAD, 0, &[9]), memory.clone()), record(STOP, 0, &[0])])
            .err(),
        malformed(0, MLOAD)
    );
    assert!(build(vec![with_memory(record(MLOAD, 0, &[8]), memory), record(STOP, 0, &[0])])
        .is_ok());
    assert_eq!(build(vec![record(MLOAD, 0, &[0])]).err(), malformed(0, MLOAD));
}

#[test]
fn a_store_to_memory_writes_the_32_bytes_of_the_word() {
    let word = Word {
        l3: 0x0102_0304_0506_0708,
        l2: 0x090a_0b0c_0d0e_0f10,
        l1: 0x1112_1314_1516_1718,
        l0: 0x191a_1b1c_1d1e_1f20,
    };
    let mut step = record(MSTORE, 0, &[64, 0]);
    step.stack.0[1] = word;
    let ops = build(vec![step, record(STOP, 0, &[])]).unwrap();
    assert_eq!(ops[7], stack_op(8, RW::READ, 1, 1022, 64));
    assert_eq!(
        ops[8],
        Operation {
            rwc: 9,
            rw: RW::READ,
            op: Op::Stack { call_id: 1, address: StackAddress(1023), value: word },
        }
    );
    for k in 0..32 {
        assert_eq!(ops[9 + k], memory_op(10 + k, RW::WRITE, 64 + k as u64, 1 + k as u8));
    }
    assert_eq!(ops.len(), 43);
}

#[test]
fn a_store_of_a_byte_writes_the_lowest_byte() {
    let ops = build(vec![record(MSTORE8, 0, &[7, 0x1234]), record(STOP, 0, &[])]).unwrap();
    assert_eq!(
        ops[7..10].to_vec(),
        vec![
            stack_op(8, RW::READ, 1, 1022, 7),
            stack_op(9, RW::READ, 1, 1023, 0x1234),
            memory_op(10, RW::WRITE, 7, 0x34),
        ]
    );
}

#[test]
fn a_store_beyond_all_addresses_is_malformed() {
    assert_eq!(
        build(vec![record(MSTORE, 0, &[u64::MAX - 31, 1]), record(STOP, 0, &[])]).err(),
        malformed(0, MSTORE)
    );
    assert!(build(vec![record(MSTORE, 0, &[u64::MAX - 32, 1]), record(STOP, 0, &[])]).is_ok());
    let mut step = record(MSTORE8, 0, &[0, 1]);
    step.stack.0[0] = Word { l0: 0, l1: 1, l2: 0, l3: 0 };
    assert_eq!(build(vec![step, record(STOP, 0, &[])]).err(), malformed(0, MSTORE8));
}

fn log_op(rwc: usize, key: u64, value: Word) -> Operation {
    Operation {
        rwc,
        rw: RW::WRITE,
        op: Op::TxLog { tx_id: 0, address: Address { hi: 0, mid: 0, lo: key }, value },
    }
}

#[test]
fn a_log_entry_is_written_under_packed_keys() {
    let memory: Vec<u8> = vec![0, 0xaa, 0xbb, 0xcc, 0];
    let ops = build(vec![
        with_memory(record(LOG0 + 2, 0, &[1, 3, 0x71, 0x72]), memory.clone()),
        with_memory(record(LOG0, 0, &[4, 1]), memory),
        record(STOP, 0, &[]),
    ])
    .unwrap();
    let entry = |log_id: u64, tag: u64, index: u64| index + (tag << 32) + (log_id << 48);
    assert_eq!(
        ops[7..17].to_vec(),
        vec![
            stack_op(8, RW::READ, 1, 1020, 1),
            stack_op(9, RW::READ, 1, 1021, 3),
            stack_op(10, RW::READ, 1, 1022, 0x71),
            stack_op(11, RW::READ, 1, 1023, 0x72),
            log_op(12, entry(1, 1, 0), Word::from_u64(0xb2)),
            log_op(13, entry(1, 2, 0), Word::from_u64(0x71)),
            log_op(14, entry(1, 2, 1), Word::from_u64(0x72)),
            log_op(15, entry(1, 3, 0), Word::from_u64(0xaa)),
            log_op(16, entry(1, 3, 1), Word::from_u64(0xbb)),
            log_op(17, entry(1, 3, 2), Word::from_u64(0xcc)),
        ]
    );
    assert_eq!(
        ops[17..21].to_vec(),
        vec![
            stack_op(18, RW::READ, 1, 1022, 4),
            stack_op(19, RW::READ, 1, 1023, 1),
            log_op(20, entry(2, 1, 0), Word::from_u64(0xb2)),
            log_op(21, entry(2, 3, 0), Word::from_u64(0)),
        ]
    );
    assert_eq!(
        ops[22].op,
        Op::TxReceipt { tx_id: 0, field: TxReceiptField::LogLength, value: 2 }
    );
}

#[test]
fn a_log_entry_of_bytes_that_the_snapshot_lacks_is_malformed() {
    let memory: Vec<u8> = vec![1, 2, 3];
    assert_eq!(
        build(vec![with_memory(record(LOG0, 0, &[1, 3]), memory.clone()), record(STOP, 0, &[])])
            .err(),
        malformed(0, LOG0)
    );
    assert!(build(vec![with_memory(record(LOG0, 0, &[3, 0]), memory.clone()), record(STOP, 0, &[])])
        .is_ok());
    assert_eq!(
        build(vec![with_memory(record(LOG0 + 1, 0, &[0, 1]), memory), record(STOP, 0, &[])]).err(),
        malformed(0, LOG0 + 1)
    );
}

fn account(rwc: usize, address: Address, field: AccountField, value: Word) -> Operation {
    Operation { rwc, rw: RW::READ, op: Op::Account { address, field, value, value_prev: value } }
}

fn call_trace() -> Vec<GethExecStep> {
    let mut call = record(CALL, 0, &[50_000, 0xc3, 9, 0, 0, 0, 0]);
    call.pc = 20;
    vec![
        call,
        record(PUSH1, 1, &[]),
        record(POP, 1, &[6]),
        record(STOP, 1, &[]),
        record(POP, 0, &[1]),
        record(STOP, 0, &[]),
    ]
}

#[test]
fn a_call_opens_a_frame_and_writes_its_result_to_the_stack_of_the_caller() {
    let accounts = vec![
        AccountState { address: RECIPIENT, nonce: 1, balance: Word::from_u64(1_000) },
        AccountState {
            address: Address { hi: 0, mid: 0, lo: 0xc3 },
            nonce: 7,
            balance: Word::from_u64(5),
        },
        AccountState { address: RECIPIENT, nonce: 2, balance: Word::from_u64(2_000) },
    ];
    let block =
        build_block(context(), accounts, &vec![(transaction(), trace(call_trace()))]).unwrap();
    let ops = block.container.operations().clone();
    let callee = Address { hi: 0, mid: 0, lo: 0xc3 };
    let arguments = [50_000u64, 0xc3, 9, 0, 0, 0, 0];
    for (i, argument) in arguments.iter().enumerate() {
        assert_eq!(ops[7 + i], stack_op(8 + i, RW::READ, 1, 1017 + i, *argument));
    }
    assert_eq!(ops[14], account(15, RECIPIENT, AccountField::Balance, Word::from_u64(1_000)));
    assert_eq!(ops[15], account(16, callee, AccountField::Nonce, Word::from_u64(7)));
    let field = |rwc: usize, field: CallContextField, value: u64| Operation {
        rwc,
        rw: RW::WRITE,
        op: Op::CallContext { call_id: 8, field, value: Word::from_u64(value) },
    };
    assert_eq!(
        ops[16..23].to_vec(),
        vec![
            field(17, CallContextField::TxId, 0),
            field(18, CallContextField::Depth, 1),
            field(19, CallContextField::CallerAddress, 0xb2),
            field(20, CallContextField::CalleeAddress, 0xc3),
            field(21, CallContextField::IsStatic, 0),
            field(22, CallContextField::IsCreate, 0),
            field(23, CallContextField::ReturnPc, 21),
        ]
    );
    assert_eq!(ops[23], stack_op(24, RW::WRITE, 1, 1023, 1));
    // The frame that was called has the number 8 and a stack of its own.
    assert_eq!(ops[24], stack_op(25, RW::WRITE, 8, 1023, 6));
    assert_eq!(ops[25], stack_op(26, RW::READ, 8, 1023, 6));
    // Back in the caller.
    assert_eq!(ops[26], stack_op(27, RW::READ, 1, 1023, 1));
    assert_eq!(ops.len(), 29);
    assert_eq!(block.txs[0].steps[0].bus_mapping_instance.len(), 17);
}

#[test]
fn a_call_of_an_account_without_code_opens_no_frame() {
    let ops = build(vec![
        record(CALL, 0, &[50_000, 0xc3, 9, 0, 0, 0, 0]),
        record(POP, 0, &[1]),
        record(STOP, 0, &[]),
    ])
    .unwrap();
    assert_eq!(ops[14], account(15, RECIPIENT, AccountField::Balance, Word::zero()));
    assert_eq!(
        ops[15],
        account(16, Address { hi: 0, mid: 0, lo: 0xc3 }, AccountField::Nonce, Word::zero())
    );
    assert_eq!(ops[16], stack_op(17, RW::WRITE, 1, 1023, 1));
    assert_eq!(ops[17], stack_op(18, RW::READ, 1, 1023, 1));
    assert_eq!(ops.len(), 20);
}

#[test]
fn a_delegated_call_stays_with_the_account_of_the_caller() {
    let block = build_block(
        context(),
        vec![],
        &vec![(
            transaction(),
            trace(vec![
                record(DELEGATECALL, 0, &[50_000, 0xc3, 0, 0, 0, 0]),
                with_storage(record(SLOAD, 1, &[4]), &[(4, 40)]),
                record(STOP, 1, &[40]),
                record(STOP, 0, &[1]),
            ]),
        )],
    )
    .unwrap();
    let context_ops = block.container.operations_of(Target::CallContext);
    assert_eq!(
        context_ops[9].op,
        Op::CallContext {
            call_id: 8,
            field: CallContextField::CallerAddress,
            value: Word::from_u64(0xa1),
        }
    );
    assert_eq!(
        context_ops[10].op,
        Op::CallContext {
            call_id: 8,
            field: CallContextField::CalleeAddress,
            value: Word::from_u64(0xb2),
        }
    );
    let slots = block.container.operations_of(Target::AccountStorage);
    assert_eq!(
        slots[0].op,
        Op::AccountStorage {
            tx_id: 0,
            address: RECIPIENT,
            key: Word::from_u64(4),
            value: Word::from_u64(40),
            value_prev: Word::from_u64(40),
        }
    );
}

#[test]
fn a_call_without_a_record_of_its_result_is_malformed() {
    assert_eq!(
        build(vec![
            record(CALL, 0, &[50_000, 0xc3, 9, 0, 0, 0, 0]),
            record(STOP, 1, &[]),
        ])
        .err(),
        malformed(0, CALL)
    );
    assert_eq!(
        build(vec![record(CALL, 0, &[50_000, 0xc3, 9, 0, 0, 0]), record(STOP, 0, &[1])]).err(),
        malformed(0, CALL)
    );
}

#[test]
fn a_record_at_the_wrong_depth_is_inconsistent() {
    assert_eq!(build(vec![record(STOP, 1, &[])]).err(), inconsistent(0, STOP));
    assert_eq!(
        build(vec![record(JUMPDEST, 0, &[]), record(JUMPDEST, 1, &[]), record(STOP, 0, &[])])
            .err(),
        inconsistent(1, JUMPDEST)
    );
    // A record after the outermost frame has ended.
    assert_eq!(
        build(vec![record(STOP, 0, &[]), record(JUMPDEST, 0, &[])]).err(),
        inconsistent(1, JUMPDEST)
    );
    // A record that is deeper than the frame that was called.
    assert_eq!(
        build(vec![
            record(CALL, 0, &[50_000, 0xc3, 9, 0, 0, 0, 0]),
            record(JUMPDEST, 1, &[]),
            record(JUMPDEST, 2, &[]),
            record(STOP, 1, &[]),
            record(POP, 0, &[1]),
            record(STOP, 0, &[]),
        ])
        .err(),
        inconsistent(2, JUMPDEST)
    );
    // A frame that was called ends, and the next record is not in the caller.
    assert_eq!(
        build(vec![
            record(CALL, 0, &[50_000, 0xc3, 9, 0, 0, 0, 0]),
            record(STOP, 1, &[]),
            record(JUMPDEST, 1, &[]),
            record(POP, 0, &[1]),
            record(STOP, 0, &[]),
        ])
        .err(),
        inconsistent(2, JUMPDEST)
    );
}

#[test]
fn a_trace_that_ends_in_an_open_frame_is_inconsistent() {
    assert_eq!(build(vec![record(JUMPDEST, 0, &[])]).err(), inconsistent(0, JUMPDEST));
    assert_eq!(
        build(vec![record(JUMPDEST, 0, &[]), record(PUSH1, 0, &[]), record(POP, 0, &[1])]).err(),
        inconsistent(2, POP)
    );
    assert!(build(vec![]).is_ok());
    assert_eq!(build(vec![]).unwrap().len(), 9);
}

#[test]
fn a_record_with_an_error_makes_no_operation_and_ends_its_frame() {
    let mut failing = record(ADD, 1, &[1]);
    failing.error = Some("stack underflow".to_string());
    let block = build_block(
        context(),
        vec![],
        &vec![(
            transaction(),
            trace(vec![
                record(CALL, 0, &[50_000, 0xc3, 9, 0, 0, 0, 0]),
                failing,
                record(POP, 0, &[0]),
                record(RETURN, 0, &[0, 0]),
            ]),
        )],
    )
    .unwrap();
    let steps = &block.txs[0].steps;
    assert!(steps[1].failed);
    assert!(steps[1].bus_mapping_instance.is_empty());
    assert!(!steps[0].failed);
    assert_eq!(steps[2].bus_mapping_instance, vec![RwReference { target: Target::Stack, rwc: 25 }]);
    assert_eq!(steps[3].bus_mapping_instance.len(), 2);
}

#[test]
fn the_counters_run_from_one_without_a_gap() {
    let block = build_block(
        context(),
        vec![],
        &vec![
            (transaction(), trace(call_trace())),
            (transaction(), trace(vec![record(STOP, 0, &[])])),
            (transaction(), trace(call_trace())),
        ],
    )
    .unwrap();
    let ops = block.container.operations();
    assert_eq!(ops.len(), 29 + 9 + 29);
    for (i, op) in ops.iter().enumerate() {
        assert_eq!(op.rwc, i + 1);
    }
    assert_eq!(block.container.len(), 67);
    assert_eq!(block.txs.len(), 3);
}

#[test]
fn the_operations_of_a_kind_keep_their_order() {
    let block =
        build_block(context(), vec![], &vec![(transaction(), trace(call_trace()))]).unwrap();
    let mut merged: Vec<Operation> = vec![];
    for target in [
        Target::Stack,
        Target::Memory,
        Target::Storage,
        Target::TransientStorage,
        Target::Account,
        Target::AccountStorage,
        Target::CallContext,
        Target::TxAccessListAccount,
        Target::TxRefund,
        Target::TxLog,
        Target::TxReceipt,
    ] {
        let of_kind = block.container.operations_of(target);
        assert!(of_kind.iter().all(|o| o.op.target() == target));
        assert!(of_kind.windows(2).all(|pair| pair[0].rwc < pair[1].rwc));
        merged.extend(of_kind);
    }
    merged.sort_by_key(|o| o.rwc);
    assert_eq!(&merged, block.container.operations());
    assert_eq!(block.container.operations_of(Target::Stack).len(), 11);
    assert_eq!(block.container.operations_of(Target::CallContext).len(), 14);
    assert_eq!(block.container.operations_of(Target::Account).len(), 2);
    assert_eq!(block.container.operations_of(Target::TxReceipt).len(), 2);
    assert!(block.container.operations_of(Target::Storage).is_empty());
}

#[test]
fn two_builds_from_one_trace_give_the_same_block() {
    let input = || vec![(transaction(), trace(call_trace()))];
    let first = build_block(context(), vec![], &input()).unwrap();
    let second = build_block(context(), vec![], &input()).unwrap();
    assert_eq!(first.container, second.container);
    assert!(first.container.same_as(&second.container));
    for (a, b) in first.txs[0].steps.iter().zip(second.txs[0].steps.iter()) {
        assert_eq!(a.bus_mapping_instance, b.bus_mapping_instance);
    }
    let other = build_block(context(), vec![], &vec![(transaction(), trace(vec![]))]).unwrap();
    assert_ne!(first.container, other.container);
    assert!(!first.container.same_as(&other.container));
    let bad = || vec![(transaction(), trace(vec![record(ADD, 0, &[1])]))];
    assert_eq!(
        build_block(context(), vec![], &bad()).err(),
        build_block(context(), vec![], &bad()).err()
    );
}

#[test]
fn a_transaction_that_creates_a_contract_works_on_the_new_address() {
    let mut creation = transaction();
    creation.to = None;
    let block =
        build_block(context(), vec![], &vec![(creation, trace(vec![record(STOP, 0, &[])]))])
            .unwrap();
    let ops = block.container.operations();
    let mut sender = [0u8; 20];
    sender[19] = 0xa1;
    let made = ethers_core::utils::get_contract_address(ethers_core::types::H160(sender), 5u64);
    let expected = Word::from_big_endian(made.as_bytes());
    assert!(!expected.is_zero());
    assert_eq!(
        ops[3].op,
        Op::CallContext { call_id: 1, field: CallContextField::CalleeAddress, value: expected }
    );
    assert_eq!(
        ops[2].op,
        Op::CallContext {
            call_id: 1,
            field: CallContextField::CallerAddress,
            value: Word::from_u64(0xa1),
        }
    );
    assert_eq!(
        ops[5].op,
        Op::CallContext { call_id: 1, field: CallContextField::IsCreate, value: Word::from_u64(1) }
    );
    assert_eq!(block.txs[0].to, None);
    assert_eq!(SENDER.create_address(5).to_word(), expected);
    assert_ne!(SENDER.create_address(6), SENDER.create_address(5));
}

#[test]
fn the_address_of_a_created_contract() {
    // The account 0x6ac7ea33f8831ea9dcc53393aaa88b25a785dbf0.
    let sender = Address { hi: 0x6ac7_ea33, mid: 0xf883_1ea9_dcc5_3393, lo: 0xaaa8_8b25_a785_dbf0 };
    assert_eq!(
        sender.create_address(0),
        Address { hi: 0xcd23_4a47, mid: 0x1b72_ba2f_1ccf_0a70, lo: 0xfcab_a648_a5ee_cd8d }
    );
    assert_eq!(
        sender.create_address(1),
        Address { hi: 0x343c_43a3, mid: 0x7d37_dff0_8ae8_c4a1, lo: 0x1544_c718_abb4_fcf8 }
    );
}

#[test]
fn a_hash_reads_the_bytes_of_its_range() {
    let memory: Vec<u8> = vec![10, 11, 12, 13, 14];
    let ops = build(vec![
        with_memory(record(0x20, 0, &[1, 3]), memory.clone()),
        record(STOP, 0, &[0xabcd]),
    ])
    .unwrap();
    assert_eq!(
        ops[7..13].to_vec(),
        vec![
            stack_op(8, RW::READ, 1, 1022, 1),
            stack_op(9, RW::READ, 1, 1023, 3),
            memory_op(10, RW::READ, 1, 11),
            memory_op(11, RW::READ, 2, 12),
            memory_op(12, RW::READ, 3, 13),
            stack_op(13, RW::WRITE, 1, 1023, 0xabcd),
        ]
    );
    // An empty range is nowhere: no byte is read.
    let ops = build(vec![
        with_memory(record(0x20, 0, &[1000, 0]), memory.clone()),
        record(STOP, 0, &[0xabcd]),
    ])
    .unwrap();
    assert_eq!(ops.len(), 7 + 3 + 2);
    assert_eq!(
        build(vec![with_memory(record(0x20, 0, &[3, 3]), memory.clone()), record(STOP, 0, &[1])])
            .err(),
        malformed(0, 0x20)
    );
    assert_eq!(
        build(vec![with_memory(record(0x20, 0, &[1, 3]), memory), record(STOP, 0, &[])]).err(),
        malformed(0, 0x20)
    );
}

#[test]
fn a_copy_into_memory_writes_the_bytes_that_the_next_record_shows() {
    let after: Vec<u8> = vec![0, 0, 0xaa, 0xbb, 0xcc, 0];
    // CALLDATACOPY: the place to copy to, the place to copy from, the length.
    let ops = build(vec![
        record(0x37, 0, &[2, 100, 3]),
        with_memory(record(STOP, 0, &[]), after.clone()),
    ])
    .unwrap();
    assert_eq!(
        ops[7..13].to_vec(),
        vec![
            stack_op(8, RW::READ, 1, 1021, 2),
            stack_op(9, RW::READ, 1, 1022, 100),
            stack_op(10, RW::READ, 1, 1023, 3),
            memory_op(11, RW::WRITE, 2, 0xaa),
            memory_op(12, RW::WRITE, 3, 0xbb),
            memory_op(13, RW::WRITE, 4, 0xcc),
        ]
    );
    // EXTCODECOPY: the account, the place to copy to, the place to copy from,
    // the length.
    let ops = build(vec![
        record(0x3c, 0, &[0xc3, 3, 100, 2]),
        with_memory(record(STOP, 0, &[]), after.clone()),
    ])
    .unwrap();
    assert_eq!(
        ops[11..13].to_vec(),
        vec![memory_op(12, RW::WRITE, 3, 0xbb), memory_op(13, RW::WRITE, 4, 0xcc)]
    );
    assert_eq!(ops.len(), 7 + 6 + 2);
    // Nothing is copied: the next record is not looked at.
    assert_eq!(build(vec![record(0x39, 0, &[2, 100, 0]), record(STOP, 0, &[])]).unwrap().len(), 12);
    assert_eq!(
        build(vec![record(0x37, 0, &[4, 100, 3]), with_memory(record(STOP, 0, &[]), after)]).err(),
        malformed(0, 0x37)
    );
    assert_eq!(build(vec![record(0x37, 0, &[2, 100, 3])]).err(), malformed(0, 0x37));
    assert_eq!(build(vec![record(0x37, 0, &[2, 100])]).err(), malformed(0, 0x37));
}

#[test]
fn a_copy_in_memory_reads_all_bytes_before_it_writes_them() {
    let memory: Vec<u8> = vec![1, 2, 3, 4, 5, 6];
    // MCOPY: the place to copy to, the place to copy from, the length.
    let ops = build(vec![with_memory(record(0x5e, 0, &[1, 0, 3]), memory.clone()), record(STOP, 0, &[])])
        .unwrap();
    assert_eq!(
        ops[10..16].to_vec(),
        vec![
            memory_op(11, RW::READ, 0, 1),
            memory_op(12, RW::READ, 1, 2),
            memory_op(13, RW::READ, 2, 3),
            memory_op(14, RW::WRITE, 1, 1),
            memory_op(15, RW::WRITE, 2, 2),
            memory_op(16, RW::WRITE, 3, 3),
        ]
    );
    assert_eq!(
        build(vec![with_memory(record(0x5e, 0, &[0, 4, 3]), memory.clone()), record(STOP, 0, &[])])
            .err(),
        malformed(0, 0x5e)
    );
    assert_eq!(
        build(vec![with_memory(record(0x5e, 0, &[u64::MAX - 2, 0, 3]), memory.clone()), record(STOP, 0, &[])])
            .err(),
        malformed(0, 0x5e)
    );
    let ops = build(vec![with_memory(record(0x5e, 0, &[u64::MAX - 3, 0, 3]), memory), record(STOP, 0, &[])])
        .unwrap();
    assert_eq!(ops[15], memory_op(16, RW::WRITE, u64::MAX - 1, 3));
}

#[test]
fn a_return_reads_the_bytes_that_it_hands_back() {
    let memory: Vec<u8> = vec![7, 8, 9];
    let ops = build(vec![with_memory(record(RETURN, 0, &[1, 2]), memory.clone())]).unwrap();
    assert_eq!(
        ops[7..11].to_vec(),
        vec![
            stack_op(8, RW::READ, 1, 1022, 1),
            stack_op(9, RW::READ, 1, 1023, 2),
            memory_op(10, RW::READ, 1, 8),
            memory_op(11, RW::READ, 2, 9),
        ]
    );
    assert_eq!(ops.len(), 13);
    // A revert does the same.
    let ops = build(vec![with_memory(record(0xfd, 0, &[0, 1]), memory.clone())]).unwrap();
    assert_eq!(ops[9], memory_op(10, RW::READ, 0, 7));
    assert_eq!(
        build(vec![with_memory(record(RETURN, 0, &[2, 2]), memory.clone())]).err(),
        malformed(0, RETURN)
    );
    assert_eq!(build(vec![with_memory(record(RETURN, 0, &[2]), memory)]).err(), malformed(0, RETURN));
    // The frame has ended: a record that follows is out of place.
    assert_eq!(
        build(vec![record(RETURN, 0, &[0, 0]), record(STOP, 0, &[])]).err(),
        inconsistent(1, STOP)
    );
}

#[test]
fn a_log_entry_without_data_is_nowhere_in_memory() {
    let ops = build(vec![record(LOG0, 0, &[5000, 0]), record(STOP, 0, &[])]).unwrap();
    assert_eq!(ops.len(), 7 + 3 + 2);
    assert_eq!(ops[9], log_op(10, (1 << 32) + (1 << 48), Word::from_u64(0xb2)));
}

#[test]
fn the_balance_of_an_account_is_read_as_the_trace_shows_it() {
    let ops = build(vec![record(0x31, 0, &[0xc3, 9]), record(STOP, 0, &[777, 9])]).unwrap();
    assert_eq!(
        ops[7..10].to_vec(),
        vec![
            stack_op(8, RW::READ, 1, 1022, 0xc3),
            account(
                9,
                Address { hi: 0, mid: 0, lo: 0xc3 },
                AccountField::Balance,
                Word::from_u64(777)
            ),
            stack_op(10, RW::WRITE, 1, 1022, 777),
        ]
    );
    // The hash of the code of an account.
    let ops = build(vec![record(0x3f, 0, &[0xc3]), record(STOP, 0, &[0x1234])]).unwrap();
    assert_eq!(
        ops[8],
        account(
            9,
            Address { hi: 0, mid: 0, lo: 0xc3 },
            AccountField::CodeHash,
            Word::from_u64(0x1234)
        )
    );
    // The balance of the account of the frame.
    let ops = build(vec![record(0x47, 0, &[]), record(STOP, 0, &[55])]).unwrap();
    assert_eq!(
        ops[7..9].to_vec(),
        vec![
            account(8, RECIPIENT, AccountField::Balance, Word::from_u64(55)),
            stack_op(9, RW::WRITE, 1, 1023, 55),
        ]
    );
    assert_eq!(build(vec![record(0x31, 0, &[]), record(STOP, 0, &[1])]).err(), malformed(0, 0x31));
    assert_eq!(build(vec![record(0x31, 0, &[1]), record(STOP, 0, &[])]).err(), malformed(0, 0x31));
    let full = vec![1u64; 1024];
    assert_eq!(build(vec![record(0x47, 0, &full), record(STOP, 0, &full)]).err(), malformed(0, 0x47));
}

#[test]
fn the_frame_knows_its_caller_and_its_account() {
    let field = |rwc: usize, call_id: usize, field: CallContextField, value: u64| Operation {
        rwc,
        rw: RW::READ,
        op: Op::CallContext { call_id, field, value: Word::from_u64(value) },
    };
    let ops = build(vec![
        record(0x30, 0, &[]),
        record(0x33, 0, &[0xb2]),
        record(STOP, 0, &[0xa1, 0xb2]),
    ])
    .unwrap();
    assert_eq!(
        ops[7..11].to_vec(),
        vec![
            field(8, 1, CallContextField::CalleeAddress, 0xb2),
            stack_op(9, RW::WRITE, 1, 1023, 0xb2),
            field(10, 1, CallContextField::CallerAddress, 0xa1),
            stack_op(11, RW::WRITE, 1, 1022, 0xa1),
        ]
    );
    // In a frame that was called, the caller is the account that called.
    let ops = build(vec![
        record(CALL, 0, &[50_000, 0xc3, 9, 0, 0, 0, 0]),
        record(0x33, 1, &[]),
        record(0x30, 1, &[0xb2]),
        record(STOP, 1, &[0xc3, 0xb2]),
        record(STOP, 0, &[1]),
    ])
    .unwrap();
    assert_eq!(ops[24], field(25, 8, CallContextField::CallerAddress, 0xb2));
    assert_eq!(ops[25], stack_op(26, RW::WRITE, 8, 1023, 0xb2));
    assert_eq!(ops[26], field(27, 8, CallContextField::CalleeAddress, 0xc3));
    assert_eq!(build(vec![record(0x30, 0, &[])]).err(), malformed(0, 0x30));
}

#[test]
fn every_handle_of_every_step_stands_for_an_operation() {
    let block = build_block(
        context(),
        vec![],
        &vec![
            (transaction(), trace(call_trace())),
            (
                transaction(),
                trace(vec![
                    with_storage(record(SLOAD, 0, &[4]), &[(4, 40)]),
                    record(MSTORE8, 0, &[7, 40]),
                    record(STOP, 0, &[]),
                ]),
            ),
        ],
    )
    .unwrap();
    let mut last = 0;
    let mut handles = 0;
    for tx in block.txs.iter() {
        for step in tx.steps.iter() {
            for handle in step.bus_mapping_instance.iter() {
                let operation = block.container.get(*handle).unwrap();
                assert_eq!(operation.rwc, handle.rwc);
                assert_eq!(operation.op.target(), handle.target);
                assert!(last < handle.rwc);
                last = handle.rwc;
                handles += 1;
            }
        }
    }
    // All operations but those that open and close the two transactions.
    assert_eq!(handles, block.container.len() - 2 * 9);
}
