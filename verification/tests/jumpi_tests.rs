use bus_mapping::circuit_input_builder::{
    build_block, BlockContext, BuildError, CircuitInputBuilder, TxInput,
};
use bus_mapping::opcode::{JUMPDEST, JUMPI, PUSH32, STOP};
use bus_mapping::operation::{Op, Operation, RwReference, StackAddress, Target, RW};
use bus_mapping::state::ExecStep;
use bus_mapping::trace::{Error, GethExecStep, GethExecTrace, Stack, Storage};
use bus_mapping::word::{Address, Word};

fn context() -> BlockContext {
    BlockContext {
        number: 1,
        timestamp: 1_700_000_000,
        base_fee: Word::from_u64(7),
        coinbase: Address { hi: 0, mid: 0, lo: 0xc0 },
    }
}

fn transaction() -> TxInput {
    TxInput {
        from: Address { hi: 0, mid: 0, lo: 0xa1 },
        to: Some(Address { hi: 0, mid: 0, lo: 0xb2 }),
        value: Word::zero(),
        gas_limit: 100_000,
        call_data: vec![],
        nonce: 0,
    }
}

fn record(pc: u64, op: u8, stack: Vec<u64>) -> GethExecStep {
    GethExecStep {
        pc,
        op,
        gas: 90_000,
        depth: 0,
        stack: Stack(stack.into_iter().map(Word::from_u64).collect()),
        memory: vec![],
        storage: Storage(vec![]),
        error: None,
    }
}

/// The code of the scenario and the places of its jump and of the jump's
/// destination.
fn jumpi_code(condition: u64, destination: u64) -> (Vec<u8>, u64) {
    let mut code: Vec<u8> = vec![];
    code.push(PUSH32);
    code.extend_from_slice(&[0u8; 24]);
    code.extend_from_slice(&condition.to_be_bytes());
    code.push(PUSH32);
    code.extend_from_slice(&[0u8; 24]);
    code.extend_from_slice(&destination.to_be_bytes());
    let start = code.len() as u64;
    code.push(JUMPI);
    code.push(STOP);
    for _ in 0..(destination - 68) {
        code.push(0);
    }
    code.push(JUMPDEST);
    code.push(STOP);
    (code, start)
}

#[test]
fn jumpi_opcode_impl() {
    let condition = 1;
    let destination = 69;

    let (code, start) = jumpi_code(condition, destination);
    assert_eq!(code[destination as usize], JUMPDEST);

    // The execution steps from the jump on: the stack holds the destination
    // on top of the condition.
    let trace = GethExecTrace {
        failed: false,
        struct_logs: vec![
            record(start, JUMPI, vec![destination, condition]),
            record(destination, JUMPDEST, vec![]),
            record(destination + 1, STOP, vec![]),
        ],
    };
    let tx = transaction();

    let mut builder = CircuitInputBuilder::new(context(), vec![]);
    builder.handle_tx(&tx, &trace).unwrap();

    let mut test_builder = CircuitInputBuilder::new(context(), vec![]);
    let mut test_tx = test_builder.new_tx(&tx).unwrap();

    // Generate step corresponding to JUMP
    let mut step = ExecStep::new(&trace.struct_logs[0]);

    // Add the last 2 Stack reads
    test_builder.state.push_stack_op(
        &mut step,
        RW::READ,
        StackAddress(1022),
        Word::from_u64(destination),
    );
    test_builder.state.push_stack_op(
        &mut step,
        RW::READ,
        StackAddress(1023),
        Word::from_u64(condition),
    );

    test_tx.steps.push(step);
    // The receipt closes the transaction, as it does in the builder at work.
    test_builder.seal_tx(trace.failed).unwrap();
    test_builder.txs.push(test_tx);

    // Compare first step bus mapping instance
    assert_eq!(
        builder.txs[0].steps[0].bus_mapping_instance,
        test_builder.txs[0].steps[0].bus_mapping_instance,
    );

    // Compare containers
    assert_eq!(builder.state.container, test_builder.state.container);
}

#[test]
fn jumpi_records_two_reads_at_the_top_of_the_stack() {
    let trace = GethExecTrace {
        failed: false,
        struct_logs: vec![
            record(66, JUMPI, vec![69, 1]),
            record(69, JUMPDEST, vec![]),
            record(70, STOP, vec![]),
        ],
    };
    let block = build_block(context(), vec![], &vec![(transaction(), trace)]).unwrap();
    let stack_ops = block.container.operations_of(Target::Stack);
    // The frame of the transaction was opened by the operations 1 to 7.
    assert_eq!(
        stack_ops,
        vec![
            Operation {
                rwc: 8,
                rw: RW::READ,
                op: Op::Stack { call_id: 1, address: StackAddress(1022), value: Word::from_u64(69) },
            },
            Operation {
                rwc: 9,
                rw: RW::READ,
                op: Op::Stack { call_id: 1, address: StackAddress(1023), value: Word::from_u64(1) },
            },
        ]
    );
    assert_eq!(
        block.txs[0].steps[0].bus_mapping_instance,
        vec![
            RwReference { target: Target::Stack, rwc: 8 },
            RwReference { target: Target::Stack, rwc: 9 },
        ]
    );
    assert!(block.txs[0].steps[1].bus_mapping_instance.is_empty());
    assert!(block.txs[0].steps[2].bus_mapping_instance.is_empty());
    assert_eq!(block.txs[0].steps.len(), 3);
}

#[test]
fn jumpi_with_one_stack_value_is_malformed() {
    let trace = GethExecTrace {
        failed: false,
        struct_logs: vec![
            record(0, JUMPDEST, vec![]),
            record(1, JUMPI, vec![69]),
            record(2, STOP, vec![]),
        ],
    };
    let built = build_block(context(), vec![], &vec![(transaction(), trace)]);
    assert_eq!(
        built.err(),
        Some(BuildError { error: Error::TraceMalformed, tx_index: 0, step_index: 1, opcode: JUMPI })
    );
}

#[test]
fn jumpi_with_an_empty_stack_is_malformed_in_the_second_transaction() {
    let good = GethExecTrace { failed: false, struct_logs: vec![record(0, STOP, vec![])] };
    let bad = GethExecTrace { failed: false, struct_logs: vec![record(5, JUMPI, vec![])] };
    let built = build_block(context(), vec![], &vec![(transaction(), good), (transaction(), bad)]);
    assert_eq!(
        built.err(),
        Some(BuildError { error: Error::TraceMalformed, tx_index: 1, step_index: 0, opcode: 0x57 })
    );
}
