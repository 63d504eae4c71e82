use near_mock_vm::context::{new_vm_context, newVMContext, Context};
use near_mock_vm::error::HostError;
use near_mock_vm::ledger::Action;
use near_mock_vm::memory::MockedMemory;
use near_mock_vm::promises::split_method_names;
use near_mock_vm::vm::{ReturnData, Source, VMLogicBuilder, VM};

fn vm_with(bytes: Vec<u8>) -> VM {
    VM::new(new_vm_context(), MockedMemory::from_bytes(bytes))
}

fn memory_with(parts: &[(usize, &[u8])], size: usize) -> Vec<u8> {
    let mut m = vec![0u8; size];
    for (at, b) in parts {
        m[*at..*at + b.len()].copy_from_slice(b);
    }
    m
}

#[test]
fn sample_context_values() {
    let c: Context = new_vm_context();
    assert_eq!(c.current_account_id, b"alice".to_vec());
    assert_eq!(c.signer_account_id, b"bob".to_vec());
    assert_eq!(c.predecessor_account_id, b"carol".to_vec());
    assert_eq!(c.prepaid_gas, 100_000_000_000_000);
    assert_eq!(newVMContext().block_index, 10);
}

#[test]
fn register_len_after_write_and_unused() {
    let mut vm = vm_with(memory_with(&[(0, b"hello")], 64));
    assert_eq!(vm.register_len(7), u64::MAX);
    assert_eq!(vm.write_register(7, 5, 0), Ok(()));
    assert_eq!(vm.register_len(7), 5);
    assert_eq!(vm.write_register(7, 2, 0), Ok(()));
    assert_eq!(vm.register_len(7), 2);
}

#[test]
fn read_register_copies_into_memory() {
    let mut vm = vm_with(memory_with(&[(0, b"hello")], 64));
    vm.write_register(1, 5, 0).unwrap();
    assert_eq!(vm.read_register(1, 20), Ok(()));
    assert_eq!(&vm.memory.bytes[20..25], b"hello");
    assert_eq!(vm.read_register(2, 20), Err(HostError::InvalidRegisterId));
    assert_eq!(vm.read_register(1, 62), Err(HostError::MemoryAccessViolation));
}

#[test]
fn write_register_out_of_memory_fails_closed() {
    let mut vm = vm_with(vec![0u8; 8]);
    assert_eq!(vm.write_register(1, 4, 6), Err(HostError::MemoryAccessViolation));
    assert_eq!(vm.register_len(1), u64::MAX);
    assert_eq!(vm.write_register(1, 1, u64::MAX), Err(HostError::MemoryAccessViolation));
}

#[test]
fn storage_write_read_remove_through_host_calls() {
    let mut vm = vm_with(memory_with(&[(0, b"key42"), (8, b"value1337"), (20, b"new_value")], 64));
    assert_eq!(vm.storage_write(5, 0, 9, 8, 1), Ok(0));
    assert_eq!(vm.storage_write(5, 0, 9, 20, 1), Ok(1));
    vm.read_register(1, 40).unwrap();
    assert_eq!(&vm.memory.bytes[40..49], b"value1337");
    assert_eq!(vm.storage_read(5, 0, 2), Ok(1));
    vm.read_register(2, 40).unwrap();
    assert_eq!(&vm.memory.bytes[40..49], b"new_value");
    assert_eq!(vm.storage_has_key(5, 0), Ok(1));
    assert_eq!(vm.storage_remove(5, 0, 3), Ok(1));
    assert_eq!(vm.storage_has_key(5, 0), Ok(0));
    assert_eq!(vm.storage_remove(5, 0, 3), Ok(0));
    assert_eq!(vm.storage_read(5, 0, 2), Ok(0));
}

#[test]
fn storage_usage_tracks_writes() {
    let mut vm = vm_with(memory_with(&[(0, b"key42"), (8, b"value1337"), (20, b"val")], 64));
    assert_eq!(vm.storage_usage(), 12);
    vm.storage_write(5, 0, 9, 8, 1).unwrap();
    assert_eq!(vm.storage_usage(), 12 + 5 + 9);
    vm.storage_write(5, 0, 3, 20, 1).unwrap();
    assert_eq!(vm.storage_usage(), 12 + 5 + 3);
    vm.storage_remove(5, 0, 1).unwrap();
    assert_eq!(vm.storage_usage(), 12);
}

#[test]
fn key_from_register_source() {
    let mut vm = vm_with(memory_with(&[(0, b"key42"), (8, b"v")], 64));
    vm.write_register(9, 5, 0).unwrap();
    assert_eq!(vm.storage_write(u64::MAX, 9, 1, 8, 1), Ok(0));
    assert_eq!(vm.storage_has_key(5, 0), Ok(1));
    assert_eq!(vm.storage_has_key(u64::MAX, 4), Err(HostError::InvalidRegisterId));
    assert_eq!(Source::from_raw(9, u64::MAX), Source::Register(9));
    assert_eq!(Source::from_raw(9, 3), Source::Memory { ptr: 9, len: 3 });
}

#[test]
fn iterator_host_calls_visit_prefix_in_order() {
    let mut vm = vm_with(memory_with(&[(0, b"k2"), (2, b"k1"), (4, b"x1"), (6, b"ab"), (8, b"k")], 64));
    vm.storage_write(2, 0, 2, 6, 0).unwrap();
    vm.storage_write(2, 2, 2, 6, 0).unwrap();
    vm.storage_write(2, 4, 2, 6, 0).unwrap();
    let it = vm.storage_iter_prefix(1, 8).unwrap();
    assert_eq!(vm.storage_iter_next(it, 10, 11), Ok(1));
    vm.read_register(10, 40).unwrap();
    assert_eq!(&vm.memory.bytes[40..42], b"k1");
    assert_eq!(vm.storage_iter_next(it, 10, 11), Ok(1));
    vm.read_register(10, 40).unwrap();
    assert_eq!(&vm.memory.bytes[40..42], b"k2");
    vm.read_register(11, 44).unwrap();
    assert_eq!(&vm.memory.bytes[44..46], b"ab");
    assert_eq!(vm.storage_iter_next(it, 10, 11), Ok(0));
    assert_eq!(vm.storage_iter_next(99, 10, 11), Err(HostError::InvalidIteratorId));
}

#[test]
fn iterator_range_host_call_and_invalidation() {
    let mut vm = vm_with(memory_with(&[(0, b"key42"), (5, b"key43"), (10, b"key44"), (15, b"v")], 64));
    vm.storage_write(5, 0, 1, 15, 0).unwrap();
    vm.storage_write(5, 5, 1, 15, 0).unwrap();
    let it = vm.storage_iter_range(5, 0, 5, 10).unwrap();
    assert_eq!(vm.storage_iter_next(it, 1, 2), Ok(1));
    vm.storage_write(5, 5, 1, 15, 0).unwrap();
    assert_eq!(vm.storage_iter_next(it, 1, 2), Err(HostError::IteratorWasInvalidated));
}

#[test]
fn save_then_restore_brings_back_state() {
    let mut vm = vm_with(memory_with(&[(0, b"key42"), (8, b"value1337"), (20, b"other")], 64));
    vm.storage_write(5, 0, 9, 8, 1).unwrap();
    vm.write_register(4, 5, 20).unwrap();
    let it = vm.storage_iter_prefix(3, 0).unwrap();
    vm.save_state();
    vm.restore_state();
    assert_eq!(vm.storage_has_key(5, 0), Ok(1));
    assert_eq!(vm.register_len(4), 5);
    assert_eq!(vm.storage_iter_next(it, 1, 2), Ok(1));
}

#[test]
fn restore_discards_later_changes() {
    let mut vm = vm_with(memory_with(&[(0, b"key42"), (8, b"value1337")], 64));
    vm.save_state();
    vm.storage_write(5, 0, 9, 8, 1).unwrap();
    vm.write_register(4, 5, 0).unwrap();
    let it = vm.storage_iter_prefix(3, 0).unwrap();
    vm.restore_state();
    assert_eq!(vm.storage_has_key(5, 0), Ok(0));
    assert_eq!(vm.register_len(4), u64::MAX);
    assert_eq!(vm.storage_iter_next(it, 1, 2), Err(HostError::InvalidIteratorId));
}

#[test]
fn restore_without_save_gives_fresh_state() {
    let mut vm = vm_with(memory_with(&[(0, b"key42")], 64));
    vm.write_register(4, 5, 0).unwrap();
    vm.restore_state();
    assert_eq!(vm.register_len(4), u64::MAX);
    assert_eq!(vm.storage_usage(), 12);
}

#[test]
fn restoring_two_snapshots_keeps_the_last() {
    let mut vm = vm_with(memory_with(&[(0, b"a"), (1, b"b")], 16));
    vm.write_register(1, 1, 0).unwrap();
    let s1 = vm.snapshot();
    vm.write_register(2, 1, 1).unwrap();
    let s2 = vm.snapshot();
    vm.write_register(3, 1, 1).unwrap();
    vm.restore_snapshot(&s1);
    vm.restore_snapshot(&s2);
    assert_eq!(vm.register_len(1), 1);
    assert_eq!(vm.register_len(2), 1);
    assert_eq!(vm.register_len(3), u64::MAX);
}

#[test]
fn failed_call_leaves_state_untouched() {
    let mut vm = vm_with(memory_with(&[(0, b"key42"), (8, b"v")], 16));
    vm.storage_write(5, 0, 1, 8, 1).unwrap();
    assert_eq!(vm.storage_write(5, 0, 50, 8, 1), Err(HostError::MemoryAccessViolation));
    assert_eq!(vm.register_len(1), u64::MAX);
    assert_eq!(vm.storage_read(5, 0, 2), Ok(1));
}

#[test]
fn set_context_keeps_storage() {
    let mut vm = vm_with(memory_with(&[(0, b"key42"), (8, b"v")], 16));
    vm.storage_write(5, 0, 1, 8, 1).unwrap();
    let mut ctx = new_vm_context();
    ctx.block_index = 77;
    vm.setContext(ctx);
    assert_eq!(vm.block_index(), 77);
    assert_eq!(vm.storage_has_key(5, 0), Ok(1));
}

#[test]
fn context_calls_fill_registers() {
    let mut vm = vm_with(vec![0u8; 64]);
    vm.current_account_id(1);
    assert_eq!(vm.register_len(1), 5);
    vm.read_register(1, 0).unwrap();
    assert_eq!(&vm.memory.bytes[0..5], b"alice");
    assert_eq!(vm.signer_account_id(2), Ok(()));
    assert_eq!(vm.register_len(2), 3);
    assert_eq!(vm.signer_account_pk(3), Ok(()));
    assert_eq!(vm.register_len(3), 5);
    assert_eq!(vm.predecessor_account_id(4), Ok(()));
    assert_eq!(vm.register_len(4), 5);
    vm.input(5);
    assert_eq!(vm.register_len(5), 5);
    vm.random_seed(6);
    assert_eq!(vm.register_len(6), 3);
    assert_eq!(vm.block_timestamp(), 42);
    assert_eq!(vm.prepaid_gas(), Ok(100_000_000_000_000));
    assert_eq!(vm.used_gas(), Ok(0));
}

#[test]
fn view_call_prohibits_signer_data() {
    let mut ctx = new_vm_context();
    ctx.is_view = true;
    let mut vm = VM::new(ctx, MockedMemory::new(64));
    assert_eq!(vm.signer_account_id(1), Err(HostError::ProhibitedInView));
    assert_eq!(vm.register_len(1), u64::MAX);
    assert_eq!(vm.prepaid_gas(), Err(HostError::ProhibitedInView));
    assert_eq!(vm.attached_deposit(0), Err(HostError::ProhibitedInView));
    assert_eq!(vm.promise_batch_create(5, 0), Err(HostError::ProhibitedInView));
}

#[test]
fn balances_written_little_endian() {
    let mut vm = vm_with(vec![0u8; 40]);
    assert_eq!(vm.account_balance(0), Ok(()));
    assert_eq!(vm.memory.bytes[0], 4);
    assert!(vm.memory.bytes[1..16].iter().all(|b| *b == 0));
    assert_eq!(vm.account_locked_balance(16), Ok(()));
    assert_eq!(vm.memory.bytes[16], 1);
    assert_eq!(vm.account_balance(30), Err(HostError::MemoryAccessViolation));
    assert_eq!(vm.attached_deposit(0), Ok(()));
    assert_eq!(vm.memory.bytes[0], 2);
}

#[test]
fn sha256_digest_into_register() {
    let mut vm = vm_with(memory_with(&[(0, b"tesdsst")], 64));
    assert_eq!(vm.sha256(7, 0, 1), Ok(()));
    vm.read_register(1, 32).unwrap();
    assert_eq!(
        &vm.memory.bytes[32..64],
        &[
            18, 176, 115, 156, 45, 100, 241, 132, 180, 134, 77, 42, 105, 111, 199, 127, 118, 112, 92, 255, 88, 43,
            83, 147, 122, 55, 26, 36, 42, 156, 160, 158
        ]
    );
    assert_eq!(vm.sha256(7, 60, 1), Err(HostError::MemoryAccessViolation));
}

#[test]
fn gas_charges_against_prepaid() {
    let mut vm = VM::with_gas_config(new_vm_context(), MockedMemory::new(0), 10, u64::MAX);
    assert_eq!(vm.gas(5), Ok(()));
    assert_eq!(vm.used_gas(), Ok(50));
    assert_eq!(vm.state.gas.burnt_gas, 50);
    let mut ctx = new_vm_context();
    ctx.prepaid_gas = 100;
    let mut small = VM::with_gas_config(ctx, MockedMemory::new(0), 10, u64::MAX);
    assert_eq!(small.gas(11), Err(HostError::GasExceeded));
    assert_eq!(small.used_gas(), Ok(0));
    let mut limited = VM::with_gas_config(new_vm_context(), MockedMemory::new(0), 10, 30);
    assert_eq!(limited.gas(4), Err(HostError::GasLimitExceeded));
    let mut free = vm_with(vec![]);
    assert_eq!(free.gas(u32::MAX), Ok(()));
    assert_eq!(free.used_gas(), Ok(0));
}

#[test]
fn gas_counter_overflow() {
    let mut ctx = new_vm_context();
    ctx.is_view = true;
    let mut vm = VM::with_gas_config(ctx, MockedMemory::new(0), u32::MAX, u64::MAX);
    for _ in 0..4 {
        if vm.gas(u32::MAX).is_err() {
            break;
        }
    }
    assert_eq!(vm.gas(u32::MAX), Err(HostError::IntegerOverflow));
}

#[test]
fn promises_build_receipts() {
    let mut vm = vm_with(memory_with(&[(0, b"charli.near"), (16, b"bob.near")], 64));
    assert_eq!(vm.promise_batch_create(11, 0), Ok(0));
    assert_eq!(vm.promise_batch_then(0, 8, 16), Ok(1));
    assert_eq!(vm.state.ledger.receipts[0].receiver_id, b"charli.near".to_vec());
    assert_eq!(vm.state.ledger.receipts[1].receipt_indices, vec![0]);
    assert_eq!(vm.promise_batch_then(5, 8, 16), Err(HostError::InvalidPromiseIndex));
    assert_eq!(vm.promise_batch_action_create_account(1), Ok(()));
    assert!(matches!(vm.state.ledger.receipts[1].actions[0], Action::CreateAccount));
    assert_eq!(vm.promise_batch_action_create_account(9), Err(HostError::InvalidPromiseIndex));
}

#[test]
fn bad_utf8_account_rejected() {
    let mut vm = vm_with(memory_with(&[(0, &[0xff, 0xfe])], 16));
    assert_eq!(vm.promise_batch_create(2, 0), Err(HostError::BadUtf8));
    assert_eq!(vm.state.ledger.receipts.len(), 0);
}

#[test]
fn promise_and_joins_receipts() {
    let mut m = memory_with(&[(0, b"a.near"), (8, b"b.near")], 64);
    m[16..24].copy_from_slice(&0u64.to_le_bytes());
    m[24..32].copy_from_slice(&1u64.to_le_bytes());
    m[32..40].copy_from_slice(&7u64.to_le_bytes());
    let mut vm = vm_with(m);
    vm.promise_batch_create(6, 0).unwrap();
    vm.promise_batch_create(6, 8).unwrap();
    assert_eq!(vm.promise_and(16, 2), Ok(2));
    assert_eq!(vm.promise_batch_action_create_account(2), Err(HostError::CannotAppendActionToJointPromise));
    assert_eq!(vm.promise_return(2), Err(HostError::CannotReturnJointPromise));
    assert_eq!(vm.promise_batch_then(2, 6, 0), Ok(3));
    assert_eq!(vm.state.ledger.receipts[2].receipt_indices, vec![0, 1]);
    assert_eq!(vm.promise_and(24, 2), Err(HostError::InvalidPromiseIndex));
    assert_eq!(vm.promise_and(60, 1), Err(HostError::MemoryAccessViolation));
}

#[test]
fn transfer_and_function_call_pay_from_balance() {
    let mut m = memory_with(&[(0, b"bob.near"), (8, b"go"), (10, b"{}")], 96);
    m[16..32].copy_from_slice(&3u128.to_le_bytes());
    m[32..48].copy_from_slice(&1u128.to_le_bytes());
    let mut vm = vm_with(m);
    let p = vm.promise_batch_create(8, 0).unwrap();
    assert_eq!(vm.promise_batch_action_transfer(p, 16), Ok(()));
    assert_eq!(vm.state.balance, 1);
    assert_eq!(vm.promise_batch_action_transfer(p, 16), Err(HostError::BalanceExceeded));
    assert_eq!(vm.promise_batch_action_function_call(p, 0, 8, 2, 10, 32, 5), Err(HostError::EmptyMethodName));
    assert_eq!(vm.promise_batch_action_function_call(p, 2, 8, 2, 10, 32, 5), Ok(()));
    assert_eq!(vm.state.balance, 0);
    assert_eq!(vm.used_gas(), Ok(5));
    assert_eq!(vm.state.ledger.receipts[0].actions.len(), 2);
}

#[test]
fn promise_create_rolls_back_both_steps() {
    let mut m = memory_with(&[(0, b"bob.near"), (8, b"go")], 64);
    m[16..32].copy_from_slice(&100u128.to_le_bytes());
    let mut vm = vm_with(m);
    assert_eq!(vm.promise_create(8, 0, 2, 8, 0, 10, 16, 1), Err(HostError::BalanceExceeded));
    assert_eq!(vm.state.promises.len(), 0);
    assert_eq!(vm.state.ledger.receipts.len(), 0);
    assert_eq!(vm.promise_create(8, 0, 2, 8, 0, 10, 48, 1), Ok(0));
    assert_eq!(vm.promise_then(0, 8, 0, 2, 8, 0, 10, 48, 1), Ok(1));
    assert_eq!(vm.state.ledger.receipts[1].receipt_indices, vec![0]);
}

#[test]
fn key_actions_recorded() {
    let mut m = memory_with(&[(0, b"bob.near"), (8, b"pk"), (10, b"foo,bar"), (20, b"sam")], 96);
    m[32..48].copy_from_slice(&0u128.to_le_bytes());
    m[48..64].copy_from_slice(&9u128.to_le_bytes());
    let mut vm = vm_with(m);
    let p = vm.promise_batch_create(8, 0).unwrap();
    assert_eq!(vm.promise_batch_action_add_key_with_full_access(p, 2, 8, 3), Ok(()));
    assert_eq!(vm.promise_batch_action_add_key_with_function_call(p, 2, 8, 4, 32, 8, 0, 7, 10), Ok(()));
    match &vm.state.ledger.receipts[0].actions[1] {
        Action::AddKeyWithFunctionCall { allowance, method_names, .. } => {
            assert_eq!(*allowance, None);
            assert_eq!(method_names, &vec![b"foo".to_vec(), b"bar".to_vec()]);
        }
        _ => panic!("expected a function-call key"),
    }
    assert_eq!(vm.promise_batch_action_stake(p, 48, 2, 8), Ok(()));
    assert_eq!(vm.promise_batch_action_delete_key(p, 2, 8), Ok(()));
    assert_eq!(vm.promise_batch_action_delete_account(p, 3, 20), Ok(()));
    assert_eq!(vm.promise_batch_action_deploy_contract(p, 2, 8), Ok(()));
    assert_eq!(vm.state.ledger.receipts[0].actions.len(), 6);
}

#[test]
fn method_names_split_on_commas() {
    assert_eq!(split_method_names(b""), Ok(vec![]));
    assert_eq!(split_method_names(b"foo"), Ok(vec![b"foo".to_vec()]));
    assert_eq!(split_method_names(b"foo,bar"), Ok(vec![b"foo".to_vec(), b"bar".to_vec()]));
    assert_eq!(split_method_names(b"foo,,bar"), Err(HostError::EmptyMethodName));
    assert_eq!(split_method_names(b","), Err(HostError::EmptyMethodName));
}

#[test]
fn returns_and_panics() {
    let mut vm = vm_with(memory_with(&[(0, b"done"), (8, b"oops\0")], 32));
    assert_eq!(vm.value_return(4, 0), Ok(()));
    assert!(matches!(&vm.state.return_data, ReturnData::Value(v) if v == b"done"));
    assert_eq!(vm.panic(), Err(HostError::GuestPanic));
    assert_eq!(vm.panic_utf8(4, 8), Err(HostError::GuestPanic));
    assert_eq!(vm.panic_utf8(u64::MAX, 8), Err(HostError::GuestPanic));
    assert_eq!(vm.panic_utf8(4, 30), Err(HostError::MemoryAccessViolation));
    let p = {
        let mut vm2 = vm_with(memory_with(&[(0, b"bob.near")], 16));
        let p = vm2.promise_batch_create(8, 0).unwrap();
        assert_eq!(vm2.promise_return(p), Ok(()));
        assert!(matches!(vm2.state.return_data, ReturnData::ReceiptIndex(0)));
        p
    };
    assert_eq!(vm.promise_return(p), Err(HostError::InvalidPromiseIndex));
    assert_eq!(vm.promise_results_count(), Ok(0));
    assert_eq!(vm.promise_result(0, 1), Err(HostError::InvalidPromiseResultIndex));
}

#[test]
fn logs_utf8_and_utf16() {
    let utf16: Vec<u8> = "hé".encode_utf16().flat_map(|u| u.to_le_bytes()).collect();
    let mut m = memory_with(&[(0, b"hi\0"), (8, &[0xff]), (16, &utf16)], 32);
    m[20] = 0;
    m[21] = 0;
    let mut vm = vm_with(m);
    assert_eq!(vm.log_utf8(2, 0), Ok(()));
    assert_eq!(vm.log_utf8(u64::MAX, 0), Ok(()));
    assert_eq!(vm.log_utf8(1, 8), Err(HostError::BadUtf8));
    assert_eq!(vm.log_utf16(4, 16), Ok(()));
    assert_eq!(vm.log_utf16(u64::MAX, 16), Ok(()));
    assert_eq!(vm.log_utf16(3, 16), Err(HostError::BadUtf16));
    assert_eq!(vm.state.logs, vec![b"hi".to_vec(), b"hi".to_vec(), "hé".as_bytes().to_vec(), "hé".as_bytes().to_vec()]);
}

#[test]
fn abort_reads_length_prefixed_utf16() {
    let msg: Vec<u8> = "bad".encode_utf16().flat_map(|u| u.to_le_bytes()).collect();
    let mut m = vec![0u8; 64];
    m[0..4].copy_from_slice(&6u32.to_le_bytes());
    m[4..10].copy_from_slice(&msg);
    m[16..20].copy_from_slice(&6u32.to_le_bytes());
    m[20..26].copy_from_slice(&msg);
    m[32..36].copy_from_slice(&3u32.to_le_bytes());
    let vm = vm_with(m);
    assert_eq!(vm.abort(4, 20, 1, 2), Err(HostError::GuestPanic));
    assert_eq!(vm.abort(2, 20, 1, 2), Err(HostError::BadUtf16));
    assert_eq!(vm.abort(36, 20, 1, 2), Err(HostError::BadUtf16));
    assert_eq!(vm.abort(4, 66, 1, 2), Err(HostError::MemoryAccessViolation));
}

#[test]
fn builder_free_builds_fresh_session() {
    let mut builder = VMLogicBuilder::free();
    assert_eq!(builder.regular_op_cost, 0);
    assert_eq!(builder.max_gas_burnt, u64::MAX);
    builder.memory = MockedMemory::from_bytes(b"key42".to_vec());
    let mut vm = builder.build(new_vm_context());
    assert_eq!(vm.write_register(1, 5, 0), Ok(()));
    assert_eq!(vm.register_len(1), 5);
    assert_eq!(vm.storage_usage(), 12);
    assert_eq!(builder.memory.bytes, b"key42".to_vec());
}

#[test]
fn builder_default_charges_regular_operations() {
    let builder = VMLogicBuilder::default();
    assert_eq!(builder.regular_op_cost, 3856371);
    assert_eq!(builder.max_gas_burnt, 200_000_000_000_000);
    let mut vm = builder.build(new_vm_context());
    assert_eq!(vm.gas(10), Ok(()));
    assert_eq!(vm.used_gas(), Ok(38563710));
    assert_eq!(vm.gas(30_000_000), Err(HostError::GasExceeded));
    assert_eq!(vm.gas(60_000_000), Err(HostError::GasLimitExceeded));
    assert_eq!(vm.used_gas(), Ok(38563710));
}

#[test]
fn iter_next_needs_distinct_registers() {
    let mut vm = vm_with(memory_with(&[(0, b"k1"), (2, b"v")], 16));
    vm.storage_write(2, 0, 1, 2, 0).unwrap();
    let it = vm.storage_iter_prefix(1, 0).unwrap();
    assert_eq!(vm.storage_iter_next(it, 3, 3), Err(HostError::MemoryAccessViolation));
    assert_eq!(vm.register_len(3), u64::MAX);
    assert_eq!(vm.storage_iter_next(it, 3, 4), Ok(1));
    assert_eq!(vm.storage_iter_next(99, 5, 5), Err(HostError::MemoryAccessViolation));
}

#[test]
fn write_at_cursor_invalidates_through_host_calls() {
    let mut vm = vm_with(memory_with(&[(0, b"k1"), (2, b"v"), (3, b"w")], 16));
    vm.storage_write(2, 0, 1, 2, 0).unwrap();
    let it = vm.storage_iter_prefix(1, 0).unwrap();
    assert_eq!(vm.storage_iter_next(it, 1, 2), Ok(1));
    vm.storage_write(2, 0, 1, 3, 0).unwrap();
    assert_eq!(vm.storage_iter_next(it, 1, 2), Err(HostError::IteratorWasInvalidated));
}

#[test]
fn iter_drop_host_call() {
    let mut vm = vm_with(memory_with(&[(0, b"k1"), (2, b"v")], 16));
    vm.storage_write(2, 0, 1, 2, 0).unwrap();
    let it = vm.storage_iter_prefix(1, 0).unwrap();
    assert_eq!(vm.storage_iter_drop(it), Ok(()));
    assert_eq!(vm.storage_iter_next(it, 1, 2), Err(HostError::InvalidIteratorId));
    assert_eq!(vm.storage_iter_drop(it), Err(HostError::InvalidIteratorId));
    assert_eq!(vm.storage_iter_drop(42), Err(HostError::InvalidIteratorId));
}

#[test]
fn sample_context_has_no_data_receivers() {
    assert!(new_vm_context().output_data_receivers.is_empty());
}
