use vstd::prelude::*;

verus! {

/// What a call runs against: the accounts involved, the block, balances, the
/// attached deposit and gas, the random seed, whether it is a view call, and
/// the accounts that receive the call's returned data.
pub struct Context {
    pub current_account_id: Vec<u8>,
    pub signer_account_id: Vec<u8>,
    pub signer_account_pk: Vec<u8>,
    pub predecessor_account_id: Vec<u8>,
    pub input: Vec<u8>,
    pub block_index: u64,
    pub block_timestamp: u64,
    pub account_balance: u128,
    pub account_locked_balance: u128,
    pub storage_usage: u64,
    pub attached_deposit: u128,
    pub prepaid_gas: u64,
    pub random_seed: Vec<u8>,
    pub is_view: bool,
    pub output_data_receivers: Vec<Vec<u8>>,
}

/// The sample context: current account `alice`, signer `bob`, predecessor
/// `carol`, block 10 at time 42, and `10^14` prepaid gas.
pub fn new_vm_context() -> (r: Context)
    ensures
        r.current_account_id@ == seq![97u8, 108, 105, 99, 101],
        r.signer_account_id@ == seq![98u8, 111, 98],
        r.signer_account_pk@ == seq![0u8, 1, 2, 3, 4],
        r.predecessor_account_id@ == seq![99u8, 97, 114, 111, 108],
        r.input@ == seq![0u8, 1, 2, 3, 5],
        r.block_index == 10,
        r.block_timestamp == 42,
        r.account_balance == 2,
        r.account_locked_balance == 1,
        r.storage_usage == 12,
        r.attached_deposit == 2,
        r.prepaid_gas == 100_000_000_000_000,
        r.random_seed@ == seq![0u8, 1, 2],
        !r.is_view,
        r.output_data_receivers@.len() == 0,
{
    Context {
        current_account_id: vec![97u8, 108, 105, 99, 101],
        signer_account_id: vec![98u8, 111, 98],
        signer_account_pk: vec![0u8, 1, 2, 3, 4],
        predecessor_account_id: vec![99u8, 97, 114, 111, 108],
        input: vec![0u8, 1, 2, 3, 5],
        block_index: 10,
        block_timestamp: 42,
        account_balance: 2,
        account_locked_balance: 1,
        storage_usage: 12,
        attached_deposit: 2,
        prepaid_gas: 100_000_000_000_000,
        random_seed: vec![0u8, 1, 2],
        is_view: false,
        output_data_receivers: Vec::new(),
    }
}

/// The same sample context as `new_vm_context`.
#[allow(non_snake_case)]
pub fn newVMContext() -> (r: Context)
    ensures
        r.current_account_id@ == seq![97u8, 108, 105, 99, 101],
        r.signer_account_id@ == seq![98u8, 111, 98],
        r.signer_account_pk@ == seq![0u8, 1, 2, 3, 4],
        r.predecessor_account_id@ == seq![99u8, 97, 114, 111, 108],
        r.input@ == seq![0u8, 1, 2, 3, 5],
        r.block_index == 10,
        r.block_timestamp == 42,
        r.account_balance == 2,
        r.account_locked_balance == 1,
        r.storage_usage == 12,
        r.attached_deposit == 2,
        r.prepaid_gas == 100_000_000_000_000,
        r.random_seed@ == seq![0u8, 1, 2],
        !r.is_view,
        r.output_data_receivers@.len() == 0,
{
    new_vm_context()
}

} // verus!
