use bus_mapping::operation::{
    first_accesses, AccountField, CallContextField, Op, Operation, OperationContainer,
    RwReference, StackAddress, Target, TxReceiptField, RW,
};
use bus_mapping::word::{Address, Word};

fn stack(call_id: usize, address: usize, value: u64) -> Op {
    Op::Stack { call_id, address: StackAddress(address), value: Word::from_u64(value) }
}

fn memory(call_id: usize, address: u64, value: u8) -> Op {
    Op::Memory { call_id, address, value }
}

#[test]
fn an_empty_container() {
    let container = OperationContainer::new();
    assert_eq!(container.len(), 0);
    assert!(container.operations().is_empty());
    assert!(container.operations_of(Target::Stack).is_empty());
    assert_eq!(container.get(RwReference { target: Target::Stack, rwc: 1 }), None);
    assert_eq!(container, OperationContainer::new());
}

#[test]
fn insert_gives_the_next_counter() {
    let mut container = OperationContainer::new();
    let first = container.insert(RW::WRITE, stack(1, 1023, 5));
    let second = container.insert(RW::READ, memory(1, 0, 9));
    let third = container.insert(RW::READ, stack(1, 1023, 5));
    assert_eq!(first, RwReference { target: Target::Stack, rwc: 1 });
    assert_eq!(second, RwReference { target: Target::Memory, rwc: 2 });
    assert_eq!(third, RwReference { target: Target::Stack, rwc: 3 });
    assert_eq!(container.len(), 3);
    assert_eq!(
        container.operations(),
        &vec![
            Operation { rwc: 1, rw: RW::WRITE, op: stack(1, 1023, 5) },
            Operation { rwc: 2, rw: RW::READ, op: memory(1, 0, 9) },
            Operation { rwc: 3, rw: RW::READ, op: stack(1, 1023, 5) },
        ]
    );
    assert_eq!(
        container.get(second),
        Some(Operation { rwc: 2, rw: RW::READ, op: memory(1, 0, 9) })
    );
    assert_eq!(
        container.operations_of(Target::Stack),
        vec![
            Operation { rwc: 1, rw: RW::WRITE, op: stack(1, 1023, 5) },
            Operation { rwc: 3, rw: RW::READ, op: stack(1, 1023, 5) },
        ]
    );
    assert_eq!(
        container.operations_of(Target::Memory),
        vec![Operation { rwc: 2, rw: RW::READ, op: memory(1, 0, 9) }]
    );
}

#[test]
fn containers_are_equal_when_their_operations_are() {
    let mut one = OperationContainer::new();
    let mut other = OperationContainer::new();
    one.insert(RW::WRITE, stack(1, 1023, 5));
    assert_ne!(one, other);
    other.insert(RW::WRITE, stack(1, 1023, 5));
    assert_eq!(one, other);
    one.insert(RW::READ, stack(1, 1023, 5));
    other.insert(RW::WRITE, stack(1, 1023, 5));
    assert_ne!(one, other);
    assert!(!one.same_as(&other));
    assert!(one.same_as(&one));
}

#[test]
fn the_kind_of_an_operation() {
    let a = Address { hi: 1, mid: 2, lo: 3 };
    let w = Word::from_u64(1);
    let kinds = [
        (stack(1, 2, 3), Target::Stack),
        (memory(1, 2, 3), Target::Memory),
        (Op::Storage { call_id: 1, key: w, value: w, value_prev: w }, Target::Storage),
        (
            Op::TransientStorage { tx_id: 1, address: a, key: w, value: w, value_prev: w },
            Target::TransientStorage,
        ),
        (
            Op::Account { address: a, field: AccountField::CodeHash, value: w, value_prev: w },
            Target::Account,
        ),
        (
            Op::AccountStorage { tx_id: 1, address: a, key: w, value: w, value_prev: w },
            Target::AccountStorage,
        ),
        (
            Op::CallContext { call_id: 1, field: CallContextField::Depth, value: w },
            Target::CallContext,
        ),
        (
            Op::TxAccessListAccount { tx_id: 1, address: a, slot: w, is_warm: true, is_warm_prev: false },
            Target::TxAccessListAccount,
        ),
        (Op::TxRefund { tx_id: 1, value: 2, value_prev: 3 }, Target::TxRefund),
        (Op::TxLog { tx_id: 1, address: a, value: w }, Target::TxLog),
        (Op::TxReceipt { tx_id: 1, field: TxReceiptField::LogLength, value: 2 }, Target::TxReceipt),
    ];
    for (i, (op, target)) in kinds.iter().enumerate() {
        assert_eq!(op.target(), *target);
        for (j, (other, _)) in kinds.iter().enumerate() {
            assert_eq!(op.at_same_location(other), i == j);
        }
    }
}

#[test]
fn the_location_of_an_operation_is_its_key() {
    assert!(stack(1, 1023, 5).at_same_location(&stack(1, 1023, 6)));
    assert!(!stack(1, 1023, 5).at_same_location(&stack(2, 1023, 5)));
    assert!(!stack(1, 1023, 5).at_same_location(&stack(1, 1022, 5)));
    assert!(!stack(1, 1023, 5).at_same_location(&memory(1, 1023, 5)));
    assert!(memory(1, 7, 5).at_same_location(&memory(1, 7, 6)));
    assert!(!memory(1, 7, 5).at_same_location(&memory(1, 8, 5)));
    let a = Address { hi: 1, mid: 2, lo: 3 };
    let b = Address { hi: 1, mid: 2, lo: 4 };
    let w = Word::from_u64(1);
    let v = Word::from_u64(2);
    let slot = |tx_id, address, key, value| Op::AccountStorage { tx_id, address, key, value, value_prev: w };
    assert!(slot(0, a, w, w).at_same_location(&slot(0, a, w, v)));
    assert!(!slot(0, a, w, w).at_same_location(&slot(1, a, w, w)));
    assert!(!slot(0, a, w, w).at_same_location(&slot(0, b, w, w)));
    assert!(!slot(0, a, w, w).at_same_location(&slot(0, a, v, w)));
    let account = |address, field| Op::Account { address, field, value: w, value_prev: w };
    assert!(account(a, AccountField::Nonce).at_same_location(&account(a, AccountField::Nonce)));
    assert!(!account(a, AccountField::Nonce).at_same_location(&account(a, AccountField::Balance)));
    assert!(!account(a, AccountField::Nonce).at_same_location(&account(b, AccountField::Nonce)));
    let receipt = |tx_id, field| Op::TxReceipt { tx_id, field, value: 0 };
    assert!(receipt(1, TxReceiptField::LogLength).at_same_location(&receipt(1, TxReceiptField::LogLength)));
    assert!(!receipt(1, TxReceiptField::LogLength)
        .at_same_location(&receipt(1, TxReceiptField::PostStateOrStatus)));
    assert!(Op::TxRefund { tx_id: 1, value: 2, value_prev: 3 }
        .at_same_location(&Op::TxRefund { tx_id: 1, value: 5, value_prev: 2 }));
    assert!(!Op::TxRefund { tx_id: 1, value: 2, value_prev: 3 }
        .at_same_location(&Op::TxRefund { tx_id: 2, value: 2, value_prev: 3 }));
}

#[test]
fn the_first_operation_of_each_key() {
    let mut container = OperationContainer::new();
    container.insert(RW::WRITE, stack(1, 1023, 5));
    container.insert(RW::WRITE, memory(1, 0, 9));
    container.insert(RW::WRITE, stack(1, 1022, 6));
    container.insert(RW::READ, stack(1, 1023, 5));
    container.insert(RW::READ, stack(2, 1023, 7));
    container.insert(RW::READ, memory(1, 0, 9));
    container.insert(RW::READ, stack(1, 1022, 6));
    assert_eq!(
        container.deduplicated(Target::Stack),
        vec![
            Operation { rwc: 1, rw: RW::WRITE, op: stack(1, 1023, 5) },
            Operation { rwc: 3, rw: RW::WRITE, op: stack(1, 1022, 6) },
            Operation { rwc: 5, rw: RW::READ, op: stack(2, 1023, 7) },
        ]
    );
    assert_eq!(
        container.deduplicated(Target::Memory),
        vec![Operation { rwc: 2, rw: RW::WRITE, op: memory(1, 0, 9) }]
    );
    assert!(container.deduplicated(Target::TxLog).is_empty());
    assert_eq!(
        first_accesses(container.operations()),
        vec![
            Operation { rwc: 1, rw: RW::WRITE, op: stack(1, 1023, 5) },
            Operation { rwc: 2, rw: RW::WRITE, op: memory(1, 0, 9) },
            Operation { rwc: 3, rw: RW::WRITE, op: stack(1, 1022, 6) },
            Operation { rwc: 5, rw: RW::READ, op: stack(2, 1023, 7) },
        ]
    );
    assert!(first_accesses(&vec![]).is_empty());
}
