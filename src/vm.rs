use vstd::prelude::*;
use crate::bytes::copy_bytes;
use crate::context::Context;
use crate::error::HostError;
use crate::gas::{charge_spec, GasCounter};
use crate::ledger::{Ledger, ReceiptView};
use crate::memory::{range_fits, write_spec, MockedMemory};
use crate::le::{le_value, u128_to_le_bytes};
use crate::outside::{default_gas_config, free_gas_config, sha256, sha256_of};
use crate::promises::promises_wf;
use crate::registers::{register_len_spec, RegisterBank};
use crate::storage::{IterView, Storage};

verus! {

/// Where a host call takes a byte argument from: a span of guest memory or a
/// whole register.
#[derive(Clone, Copy, Debug, PartialEq, Eq, Structural)]
pub enum Source {
    Memory { ptr: u64, len: u64 },
    Register(u64),
}

impl Source {
    /// The raw `(ptr, len)` convention: a length of `u64::MAX` names the
    /// register `ptr`, any other length the memory span `[ptr, ptr + len)`.
    pub fn from_raw(ptr: u64, len: u64) -> (r: Source)
        ensures
            r == raw_source(ptr, len),
    {
        if len == u64::MAX {
            Source::Register(ptr)
        } else {
            Source::Memory { ptr, len }
        }
    }
}

pub open spec fn raw_source(ptr: u64, len: u64) -> Source {
    if len == u64::MAX {
        Source::Register(ptr)
    } else {
        Source::Memory { ptr, len }
    }
}

/// The bytes a source yields, or why it yields none.
pub open spec fn fetch_spec(mem: Seq<u8>, regs: Map<u64, Seq<u8>>, src: Source) -> Result<Seq<u8>, HostError> {
    match src {
        Source::Memory { ptr, len } => if range_fits(mem.len(), ptr, len) {
            Ok(mem.subrange(ptr as int, ptr + len))
        } else {
            Err(HostError::MemoryAccessViolation)
        },
        Source::Register(id) => if regs.contains_key(id) {
            Ok(regs[id])
        } else {
            Err(HostError::InvalidRegisterId)
        },
    }
}

pub open spec fn bytes_result(r: Result<Vec<u8>, HostError>) -> Result<Seq<u8>, HostError> {
    match r {
        Ok(v) => Ok(v@),
        Err(e) => Err(e),
    }
}

/// A promise: one receipt, or the join of several.
pub enum Promise {
    Receipt(u64),
    NotReceipt(Vec<u64>),
}

pub enum PromiseView {
    Receipt(u64),
    NotReceipt(Seq<u64>),
}

impl Promise {
    pub open spec fn view(&self) -> PromiseView {
        match self {
            Promise::Receipt(i) => PromiseView::Receipt(*i),
            Promise::NotReceipt(v) => PromiseView::NotReceipt(v@),
        }
    }
}

/// What the call returns to its caller.
pub enum ReturnData {
    Nothing,
    Value(Vec<u8>),
    ReceiptIndex(u64),
}

pub enum ReturnDataView {
    Nothing,
    Value(Seq<u8>),
    ReceiptIndex(u64),
}

impl ReturnData {
    pub open spec fn view(&self) -> ReturnDataView {
        match self {
            ReturnData::Nothing => ReturnDataView::Nothing,
            ReturnData::Value(v) => ReturnDataView::Value(v@),
            ReturnData::ReceiptIndex(i) => ReturnDataView::ReceiptIndex(*i),
        }
    }
}

/// The state that host calls accumulate, and that a snapshot captures.
pub struct HostState {
    pub registers: RegisterBank,
    pub storage: Storage,
    pub ledger: Ledger,
    pub promises: Vec<Promise>,
    pub gas: GasCounter,
    pub storage_usage: u64,
    pub balance: u128,
    pub locked_balance: u128,
    pub logs: Vec<Vec<u8>>,
    pub return_data: ReturnData,
}

pub struct HostView {
    pub registers: Map<u64, Seq<u8>>,
    pub storage: Map<Seq<u8>, Seq<u8>>,
    pub iterators: Seq<Option<IterView>>,
    pub receipts: Seq<ReceiptView>,
    pub promises: Seq<PromiseView>,
    pub gas: GasCounter,
    pub storage_usage: u64,
    pub balance: u128,
    pub locked_balance: u128,
    pub logs: Seq<Seq<u8>>,
    pub return_data: ReturnDataView,
}

/// Outside a view call, the gas used never exceeds the prepaid gas.
pub open spec fn gas_within_prepaid(g: GasCounter) -> bool {
    !g.is_view ==> g.used_gas <= g.prepaid_gas
}

/// The state a call starts from when nothing has been committed yet.
pub open spec fn fresh_view(ctx: Context, max_gas_burnt: u64) -> HostView {
    HostView {
        registers: Map::empty(),
        storage: Map::empty(),
        iterators: Seq::empty(),
        receipts: Seq::empty(),
        promises: Seq::empty(),
        gas: GasCounter {
            burnt_gas: 0,
            used_gas: 0,
            max_gas_burnt,
            prepaid_gas: ctx.prepaid_gas,
            is_view: ctx.is_view,
        },
        storage_usage: ctx.storage_usage,
        balance: (ctx.account_balance + ctx.attached_deposit) as u128,
        locked_balance: ctx.account_locked_balance,
        logs: Seq::empty(),
        return_data: ReturnDataView::Nothing,
    }
}

fn copy_promise(p: &Promise) -> (r: Promise)
    ensures
        r@ == p@,
{
    match p {
        Promise::Receipt(i) => Promise::Receipt(*i),
        Promise::NotReceipt(v) => {
            let mut c: Vec<u64> = Vec::with_capacity(v.len());
            let mut i: usize = 0;
            while i < v.len()
                invariant
                    i <= v@.len(),
                    c@ =~= v@.subrange(0, i as int),
                decreases v@.len() - i,
            {
                c.push(v[i]);
                i = i + 1;
            }
            assert(c@ =~= v@);
            Promise::NotReceipt(c)
        },
    }
}

impl HostState {
    pub open spec fn view(&self) -> HostView {
        HostView {
            registers: self.registers@,
            storage: self.storage@,
            iterators: self.storage.iter_views(),
            receipts: self.ledger@,
            promises: self.promises@.map_values(|p: Promise| p@),
            gas: self.gas,
            storage_usage: self.storage_usage,
            balance: self.balance,
            locked_balance: self.locked_balance,
            logs: self.logs@.map_values(|l: Vec<u8>| l@),
            return_data: self.return_data@,
        }
    }

    pub open spec fn wf(&self) -> bool {
        &&& self.registers.wf()
        &&& self.storage.wf()
        &&& promises_wf(self@.promises, self@.receipts.len())
        &&& gas_within_prepaid(self.gas)
    }

    /// The state of a session that has committed nothing yet.
    pub fn fresh(ctx: &Context, max_gas_burnt: u64) -> (r: HostState)
        requires
            ctx.account_balance + ctx.attached_deposit <= u128::MAX,
        ensures
            r.wf(),
            r@ == fresh_view(*ctx, max_gas_burnt),
    {
        let r = HostState {
            registers: RegisterBank::new(),
            storage: Storage::new(),
            ledger: Ledger::new(),
            promises: Vec::new(),
            gas: GasCounter::new(max_gas_burnt, ctx.prepaid_gas, ctx.is_view),
            storage_usage: ctx.storage_usage,
            balance: ctx.account_balance + ctx.attached_deposit,
            locked_balance: ctx.account_locked_balance,
            logs: Vec::new(),
            return_data: ReturnData::Nothing,
        };
        assert(r@.promises =~= Seq::<PromiseView>::empty());
        assert(r@.logs =~= Seq::<Seq<u8>>::empty());
        r
    }

    /// An independent deep copy.
    pub fn copy(&self) -> (r: HostState)
        requires
            self.wf(),
        ensures
            r.wf(),
            r@ == self@,
    {
        let mut promises: Vec<Promise> = Vec::with_capacity(self.promises.len());
        let mut i: usize = 0;
        while i < self.promises.len()
            invariant
                i <= self.promises@.len(),
                promises@.len() == i,
                forall|j: int| 0 <= j < i ==> (#[trigger] promises@[j])@ == self.promises@[j]@,
            decreases self.promises@.len() - i,
        {
            promises.push(copy_promise(&self.promises[i]));
            i = i + 1;
        }
        let mut logs: Vec<Vec<u8>> = Vec::with_capacity(self.logs.len());
        let mut j: usize = 0;
        while j < self.logs.len()
            invariant
                j <= self.logs@.len(),
                logs@.len() == j,
                forall|t: int| 0 <= t < j ==> (#[trigger] logs@[t])@ == self.logs@[t]@,
            decreases self.logs@.len() - j,
        {
            logs.push(copy_bytes(self.logs[j].as_slice()));
            j = j + 1;
        }
        let return_data = match &self.return_data {
            ReturnData::Nothing => ReturnData::Nothing,
            ReturnData::Value(v) => ReturnData::Value(copy_bytes(v.as_slice())),
            ReturnData::ReceiptIndex(x) => ReturnData::ReceiptIndex(*x),
        };
        let r = HostState {
            registers: self.registers.copy(),
            storage: self.storage.copy(),
            ledger: self.ledger.copy(),
            promises,
            gas: self.gas,
            storage_usage: self.storage_usage,
            balance: self.balance,
            locked_balance: self.locked_balance,
            logs,
            return_data,
        };
        assert(r@.promises =~= self@.promises);
        assert(r@.logs =~= self@.logs);
        r
    }
}

/// The gas that `n` regular operations cost.
pub open spec fn op_gas(n: u32, regular_op_cost: u32) -> u64 {
    (n * regular_op_cost) as u64
}

/// A host call either returns `Ok(v)` and moves the state to the one its
/// outcome names, or returns the outcome's error and leaves the state as it was.
pub open spec fn commits<T>(outcome: Result<(T, HostView), HostError>, r: Result<T, HostError>, pre: HostView, post: HostView) -> bool {
    match outcome {
        Ok((v, s)) => r == Ok::<T, HostError>(v) && post == s,
        Err(e) => r == Err::<T, HostError>(e) && post == pre,
    }
}

/// Saving and then restoring with nothing in between gives back every
/// register, key, iterator and counter as it was when saved.
pub proof fn law_save_then_restore(state: HostView, ctx: Context, max_gas_burnt: u64)
    ensures
        restore_spec(Some(state), ctx, max_gas_burnt) == state,
{
}

/// Restoring keeps no memory of earlier restores: restoring snapshot `s1`
/// and then `s2` leaves exactly what restoring `s2` alone leaves.
pub proof fn law_restore_forgets(pre: HostView, s1: HostView, s2: HostView)
    ensures
        restore_to(restore_to(pre, s1), s2) == restore_to(pre, s2),
{
}

/// The state after restoring snapshot `snap` over state `pre`.
pub open spec fn restore_to(pre: HostView, snap: HostView) -> HostView {
    snap
}

/// The host call leaves the context, the guest memory and the save slot alone.
pub open spec fn keeps_env(pre: VM, post: VM) -> bool {
    &&& post.context == pre.context
    &&& post.memory == pre.memory
    &&& saved_view(post.saved) == saved_view(pre.saved)
    &&& post.max_gas_burnt == pre.max_gas_burnt
    &&& post.regular_op_cost == pre.regular_op_cost
}

/// A captured session state, independent of the live one.
pub struct Snapshot {
    pub state: HostState,
}

impl Snapshot {
    pub open spec fn view(&self) -> HostView {
        self.state@
    }

    pub open spec fn wf(&self) -> bool {
        self.state.wf()
    }
}

/// What a session is built from: the gas prices and limits, and the guest
/// memory.
pub struct VMLogicBuilder {
    pub regular_op_cost: u32,
    pub max_gas_burnt: u64,
    pub max_gas_burnt_view: u64,
    pub memory: MockedMemory,
}

impl VMLogicBuilder {
    /// A builder that charges nothing for regular operations, puts no limit
    /// on burnt gas, and starts with an empty guest memory.
    pub fn free() -> (r: VMLogicBuilder)
        ensures
            r.regular_op_cost == 0,
            r.max_gas_burnt == u64::MAX,
            r.max_gas_burnt_view == u64::MAX,
            r.memory@.len() == 0,
    {
        let (op_cost, max_burnt, max_burnt_view) = free_gas_config();
        VMLogicBuilder {
            regular_op_cost: op_cost,
            max_gas_burnt: max_burnt,
            max_gas_burnt_view: max_burnt_view,
            memory: MockedMemory::from_bytes(Vec::new()),
        }
    }

    /// A fresh session for calls in `context`, over a copy of the builder's
    /// memory; a view call is held to the view limit on burnt gas.
    pub fn build(&self, context: Context) -> (r: VM)
        requires
            context.account_balance + context.attached_deposit <= u128::MAX,
        ensures
            r.wf(),
            r.context == context,
            r.memory@ == self.memory@,
            r.regular_op_cost == self.regular_op_cost,
            r.max_gas_burnt == (if context.is_view { self.max_gas_burnt_view } else { self.max_gas_burnt }),
            r.state@ == fresh_view(context, r.max_gas_burnt),
            r.saved is None,
    {
        let limit = if context.is_view { self.max_gas_burnt_view } else { self.max_gas_burnt };
        let memory = MockedMemory::from_bytes(copy_bytes(self.memory.bytes.as_slice()));
        VM::with_gas_config(context, memory, self.regular_op_cost, limit)
    }
}

impl Default for VMLogicBuilder {
    /// A builder with the standard gas prices and limits and an empty guest
    /// memory.
    fn default() -> (r: VMLogicBuilder)
        ensures
            r.regular_op_cost == 3856371,
            r.max_gas_burnt == 200_000_000_000_000,
            r.max_gas_burnt_view == 200_000_000_000_000,
            r.memory@.len() == 0,
    {
        let (op_cost, max_burnt, max_burnt_view) = default_gas_config();
        VMLogicBuilder {
            regular_op_cost: op_cost,
            max_gas_burnt: max_burnt,
            max_gas_burnt_view: max_burnt_view,
            memory: MockedMemory::from_bytes(Vec::new()),
        }
    }
}

/// A mocked contract host: the call context, the guest memory, and the host
/// state that host calls read and change. Every host call either succeeds
/// and commits its whole effect, or fails and leaves the host state exactly
/// as it was.
pub struct VM {
    pub context: Context,
    pub memory: MockedMemory,
    pub regular_op_cost: u32,
    pub max_gas_burnt: u64,
    pub state: HostState,
    pub saved: Option<HostState>,
}

pub open spec fn saved_view(s: Option<HostState>) -> Option<HostView> {
    match s {
        Some(h) => Some(h@),
        None => None,
    }
}

/// The state after `restore_state`: the saved one, or a fresh one when
/// nothing was saved.
pub open spec fn restore_spec(saved: Option<HostView>, ctx: Context, max_gas_burnt: u64) -> HostView {
    match saved {
        Some(s) => s,
        None => fresh_view(ctx, max_gas_burnt),
    }
}

impl VM {
    pub open spec fn wf(&self) -> bool {
        &&& self.state.wf()
        &&& self.saved matches Some(s) ==> s.wf()
        &&& self.context.account_balance + self.context.attached_deposit <= u128::MAX
    }

    /// A session over `memory` for calls in `context`, charging nothing for
    /// regular operations and putting no limit on burnt gas.
    pub fn new(context: Context, memory: MockedMemory) -> (r: VM)
        requires
            context.account_balance + context.attached_deposit <= u128::MAX,
        ensures
            r.wf(),
            r.context == context,
            r.memory@ == memory@,
            r.regular_op_cost == 0,
            r.max_gas_burnt == u64::MAX,
            r.state@ == fresh_view(context, u64::MAX),
            r.saved is None,
    {
        let (op_cost, max_burnt, max_burnt_view) = free_gas_config();
        let limit = if context.is_view { max_burnt_view } else { max_burnt };
        let state = HostState::fresh(&context, limit);
        VM { context, memory, regular_op_cost: op_cost, max_gas_burnt: limit, state, saved: None }
    }

    /// A session whose regular operations cost `regular_op_cost` gas each and
    /// whose burnt gas may not exceed `max_gas_burnt`.
    pub fn with_gas_config(context: Context, memory: MockedMemory, regular_op_cost: u32, max_gas_burnt: u64) -> (r: VM)
        requires
            context.account_balance + context.attached_deposit <= u128::MAX,
        ensures
            r.wf(),
            r.context == context,
            r.memory@ == memory@,
            r.regular_op_cost == regular_op_cost,
            r.max_gas_burnt == max_gas_burnt,
            r.state@ == fresh_view(context, max_gas_burnt),
            r.saved is None,
    {
        let state = HostState::fresh(&context, max_gas_burnt);
        VM { context, memory, regular_op_cost, max_gas_burnt, state, saved: None }
    }

    /// Keeps a copy of the current host state in the save slot.
    pub fn save_state(&mut self)
        requires
            old(self).wf(),
        ensures
            final(self).wf(),
            final(self).state@ == old(self).state@,
            saved_view(final(self).saved) == Some(old(self).state@),
            final(self).context == old(self).context,
            final(self).memory == old(self).memory,
            final(self).max_gas_burnt == old(self).max_gas_burnt,
            final(self).regular_op_cost == old(self).regular_op_cost,
    {
        self.saved = Some(self.state.copy());
    }

    /// Replaces the host state with a copy of the saved one, or with a fresh
    /// state when nothing was saved.
    pub fn restore_state(&mut self)
        requires
            old(self).wf(),
        ensures
            final(self).wf(),
            final(self).state@ == restore_spec(saved_view(old(self).saved), old(self).context, old(self).max_gas_burnt),
            saved_view(final(self).saved) == saved_view(old(self).saved),
            final(self).context == old(self).context,
            final(self).memory == old(self).memory,
            final(self).max_gas_burnt == old(self).max_gas_burnt,
            final(self).regular_op_cost == old(self).regular_op_cost,
    {
        let next = match &self.saved {
            Some(s) => s.copy(),
            None => HostState::fresh(&self.context, self.max_gas_burnt),
        };
        self.state = next;
    }

    /// An independent capture of the current host state.
    pub fn snapshot(&self) -> (r: Snapshot)
        requires
            self.wf(),
        ensures
            r.wf(),
            r@ == self.state@,
    {
        Snapshot { state: self.state.copy() }
    }

    /// Replaces the host state with a copy of `snap`.
    pub fn restore_snapshot(&mut self, snap: &Snapshot)
        requires
            old(self).wf(),
            snap.wf(),
        ensures
            final(self).wf(),
            final(self).state@ == restore_to(old(self).state@, snap@),
            saved_view(final(self).saved) == saved_view(old(self).saved),
            final(self).context == old(self).context,
            final(self).memory == old(self).memory,
            final(self).max_gas_burnt == old(self).max_gas_burnt,
            final(self).regular_op_cost == old(self).regular_op_cost,
    {
        self.state = snap.state.copy();
    }

    /// Replaces the call context; the host state is left as it is.
    #[allow(non_snake_case)]
    pub fn setContext(&mut self, context: Context)
        requires
            old(self).wf(),
            context.account_balance + context.attached_deposit <= u128::MAX,
        ensures
            final(self).wf(),
            final(self).context == context,
            final(self).state@ == old(self).state@,
            saved_view(final(self).saved) == saved_view(old(self).saved),
            final(self).memory == old(self).memory,
            final(self).max_gas_burnt == old(self).max_gas_burnt,
            final(self).regular_op_cost == old(self).regular_op_cost,
    {
        self.context = context;
    }

    /// The bytes `src` names.
    pub fn fetch(&self, src: Source) -> (r: Result<Vec<u8>, HostError>)
        requires
            self.wf(),
        ensures
            bytes_result(r) == fetch_spec(self.memory@, self.state.registers@, src),
    {
        match src {
            Source::Memory { ptr, len } => self.memory.read(ptr, len),
            Source::Register(id) => match self.state.registers.get(id) {
                Some(v) => Ok(copy_bytes(v.as_slice())),
                None => Err(HostError::InvalidRegisterId),
            },
        }
    }

    /// Copies register `register_id` into guest memory at `ptr`.
    pub fn read_register(&mut self, register_id: u64, ptr: u64) -> (r: Result<(), HostError>)
        requires
            old(self).wf(),
        ensures
            final(self).wf(),
            final(self).state@ == old(self).state@,
            final(self).context == old(self).context,
            saved_view(final(self).saved) == saved_view(old(self).saved),
            !old(self).state.registers@.contains_key(register_id) ==> r == Err::<(), HostError>(
                HostError::InvalidRegisterId,
            ) && final(self).memory@ == old(self).memory@,
            old(self).state.registers@.contains_key(register_id) && !range_fits(
                old(self).memory@.len(),
                ptr,
                old(self).state.registers@[register_id].len() as u64,
            ) ==> r == Err::<(), HostError>(HostError::MemoryAccessViolation) && final(self).memory@
                == old(self).memory@,
            old(self).state.registers@.contains_key(register_id) && range_fits(
                old(self).memory@.len(),
                ptr,
                old(self).state.registers@[register_id].len() as u64,
            ) ==> r is Ok && final(self).memory@ == write_spec(
                old(self).memory@,
                ptr as int,
                old(self).state.registers@[register_id],
            ),
    {
        match self.state.registers.get(register_id) {
            Some(data) => self.memory.write(ptr, data.as_slice()),
            None => Err(HostError::InvalidRegisterId),
        }
    }

    /// The length of register `register_id`, or `u64::MAX` when it is unused.
    pub fn register_len(&self, register_id: u64) -> (r: u64)
        requires
            self.wf(),
        ensures
            r == register_len_spec(self.state.registers@, register_id),
    {
        self.state.registers.len_of(register_id)
    }

    /// Writes the `data_len` bytes of guest memory at `data_ptr` into
    /// register `register_id`, replacing what it held.
    pub fn write_register(&mut self, register_id: u64, data_len: u64, data_ptr: u64) -> (r: Result<(), HostError>)
        requires
            old(self).wf(),
        ensures
            final(self).wf(),
            final(self).context == old(self).context,
            final(self).memory == old(self).memory,
            saved_view(final(self).saved) == saved_view(old(self).saved),
            range_fits(old(self).memory@.len(), data_ptr, data_len) ==> r is Ok && final(self).state@ == (HostView {
                registers: old(self).state@.registers.insert(
                    register_id,
                    old(self).memory@.subrange(data_ptr as int, data_ptr + data_len),
                ),
                ..old(self).state@
            }),
            !range_fits(old(self).memory@.len(), data_ptr, data_len) ==> r == Err::<(), HostError>(
                HostError::MemoryAccessViolation,
            ) && final(self).state@ == old(self).state@,
    {
        let data = self.memory.read(data_ptr, data_len)?;
        self.state.registers.write(register_id, data);
        Ok(())
    }

    /// Charges `gas_amount` regular operations.
    pub fn gas(&mut self, gas_amount: u32) -> (r: Result<(), HostError>)
        requires
            old(self).wf(),
        ensures
            final(self).wf(),
            final(self).context == old(self).context,
            final(self).memory == old(self).memory,
            saved_view(final(self).saved) == saved_view(old(self).saved),
            charge_spec(old(self).state.gas, op_gas(gas_amount, old(self).regular_op_cost), op_gas(gas_amount, old(self).regular_op_cost)) matches Ok(g)
                ==> r is Ok && final(self).state@ == (HostView { gas: g, ..old(self).state@ }),
            charge_spec(old(self).state.gas, op_gas(gas_amount, old(self).regular_op_cost), op_gas(gas_amount, old(self).regular_op_cost)) matches Err(e)
                ==> r == Err::<(), HostError>(e) && final(self).state@ == old(self).state@,
    {
        let a = gas_amount as u64;
        let b = self.regular_op_cost as u64;
        assert(a * b <= u64::MAX) by (nonlinear_arith)
            requires
                a <= u32::MAX,
                b <= u32::MAX,
        ;
        let cost = a * b;
        let g = self.state.gas.charged(cost, cost)?;
        self.state.gas = g;
        Ok(())
    }
}

/// The ensures shared by host calls that put one byte string into a register.
pub open spec fn wrote_register(pre: HostView, post: HostView, register_id: u64, data: Seq<u8>) -> bool {
    post == (HostView { registers: pre.registers.insert(register_id, data), ..pre })
}

impl VM {
    /// Puts the current account id into `register_id`.
    pub fn current_account_id(&mut self, register_id: u64)
        requires
            old(self).wf(),
        ensures
            final(self).wf(),
            final(self).context == old(self).context,
            final(self).memory == old(self).memory,
            saved_view(final(self).saved) == saved_view(old(self).saved),
            wrote_register(old(self).state@, final(self).state@, register_id, old(self).context.current_account_id@),
    {
        let data = copy_bytes(self.context.current_account_id.as_slice());
        self.state.registers.write(register_id, data);
    }

    /// Puts the signer's account id into `register_id`; not available in a
    /// view call.
    pub fn signer_account_id(&mut self, register_id: u64) -> (r: Result<(), HostError>)
        requires
            old(self).wf(),
        ensures
            final(self).wf(),
            final(self).context == old(self).context,
            final(self).memory == old(self).memory,
            saved_view(final(self).saved) == saved_view(old(self).saved),
            old(self).context.is_view ==> r == Err::<(), HostError>(HostError::ProhibitedInView)
                && final(self).state@ == old(self).state@,
            !old(self).context.is_view ==> r is Ok && wrote_register(old(self).state@, final(self).state@, register_id, old(self).context.signer_account_id@),
    {
        if self.context.is_view {
            return Err(HostError::ProhibitedInView);
        }
        let data = copy_bytes(self.context.signer_account_id.as_slice());
        self.state.registers.write(register_id, data);
        Ok(())
    }

    /// Puts the signer's public key into `register_id`; not available in a
    /// view call.
    pub fn signer_account_pk(&mut self, register_id: u64) -> (r: Result<(), HostError>)
        requires
            old(self).wf(),
        ensures
            final(self).wf(),
            final(self).context == old(self).context,
            final(self).memory == old(self).memory,
            saved_view(final(self).saved) == saved_view(old(self).saved),
            old(self).context.is_view ==> r == Err::<(), HostError>(HostError::ProhibitedInView)
                && final(self).state@ == old(self).state@,
            !old(self).context.is_view ==> r is Ok && wrote_register(old(self).state@, final(self).state@, register_id, old(self).context.signer_account_pk@),
    {
        if self.context.is_view {
            return Err(HostError::ProhibitedInView);
        }
        let data = copy_bytes(self.context.signer_account_pk.as_slice());
        self.state.registers.write(register_id, data);
        Ok(())
    }

    /// Puts the predecessor's account id into `register_id`; not available in
    /// a view call.
    pub fn predecessor_account_id(&mut self, register_id: u64) -> (r: Result<(), HostError>)
        requires
            old(self).wf(),
        ensures
            final(self).wf(),
            final(self).context == old(self).context,
            final(self).memory == old(self).memory,
            saved_view(final(self).saved) == saved_view(old(self).saved),
            old(self).context.is_view ==> r == Err::<(), HostError>(HostError::ProhibitedInView)
                && final(self).state@ == old(self).state@,
            !old(self).context.is_view ==> r is Ok && wrote_register(old(self).state@, final(self).state@, register_id, old(self).context.predecessor_account_id@),
    {
        if self.context.is_view {
            return Err(HostError::ProhibitedInView);
        }
        let data = copy_bytes(self.context.predecessor_account_id.as_slice());
        self.state.registers.write(register_id, data);
        Ok(())
    }

    /// Puts the call's input into `register_id`.
    pub fn input(&mut self, register_id: u64)
        requires
            old(self).wf(),
        ensures
            final(self).wf(),
            final(self).context == old(self).context,
            final(self).memory == old(self).memory,
            saved_view(final(self).saved) == saved_view(old(self).saved),
            wrote_register(old(self).state@, final(self).state@, register_id, old(self).context.input@),
    {
        let data = copy_bytes(self.context.input.as_slice());
        self.state.registers.write(register_id, data);
    }

    /// Puts the random seed into `register_id`.
    pub fn random_seed(&mut self, register_id: u64)
        requires
            old(self).wf(),
        ensures
            final(self).wf(),
            final(self).context == old(self).context,
            final(self).memory == old(self).memory,
            saved_view(final(self).saved) == saved_view(old(self).saved),
            wrote_register(old(self).state@, final(self).state@, register_id, old(self).context.random_seed@),
    {
        let data = copy_bytes(self.context.random_seed.as_slice());
        self.state.registers.write(register_id, data);
    }

    /// Puts the SHA-256 digest of the bytes `(value_ptr, value_len)` names
    /// into `register_id`.
    pub fn sha256(&mut self, value_len: u64, value_ptr: u64, register_id: u64) -> (r: Result<(), HostError>)
        requires
            old(self).wf(),
        ensures
            final(self).wf(),
            final(self).context == old(self).context,
            final(self).memory == old(self).memory,
            saved_view(final(self).saved) == saved_view(old(self).saved),
            fetch_spec(old(self).memory@, old(self).state@.registers, raw_source(value_ptr, value_len)) matches Err(e)
                ==> r == Err::<(), HostError>(e) && final(self).state@ == old(self).state@,
            fetch_spec(old(self).memory@, old(self).state@.registers, raw_source(value_ptr, value_len)) matches Ok(v)
                ==> r is Ok && wrote_register(old(self).state@, final(self).state@, register_id, sha256_of(v)),
    {
        let value = self.fetch(Source::from_raw(value_ptr, value_len))?;
        let digest = sha256(value.as_slice());
        self.state.registers.write(register_id, digest);
        Ok(())
    }

    /// The current block height.
    pub fn block_index(&self) -> (r: u64)
        ensures
            r == self.context.block_index,
    {
        self.context.block_index
    }

    /// The current block timestamp.
    pub fn block_timestamp(&self) -> (r: u64)
        ensures
            r == self.context.block_timestamp,
    {
        self.context.block_timestamp
    }

    /// The bytes the account uses in storage, as changed by this session's
    /// writes and removals.
    pub fn storage_usage(&self) -> (r: u64)
        ensures
            r == self.state.storage_usage,
    {
        self.state.storage_usage
    }

    /// The gas attached to the call; not available in a view call.
    pub fn prepaid_gas(&self) -> (r: Result<u64, HostError>)
        ensures
            self.context.is_view ==> r == Err::<u64, HostError>(HostError::ProhibitedInView),
            !self.context.is_view ==> r == Ok::<u64, HostError>(self.context.prepaid_gas),
    {
        if self.context.is_view {
            return Err(HostError::ProhibitedInView);
        }
        Ok(self.context.prepaid_gas)
    }

    /// The gas used so far, which outside a view call never exceeds the
    /// prepaid gas; not available in a view call.
    pub fn used_gas(&self) -> (r: Result<u64, HostError>)
        requires
            self.wf(),
        ensures
            self.context.is_view ==> r == Err::<u64, HostError>(HostError::ProhibitedInView),
            !self.context.is_view ==> r == Ok::<u64, HostError>(self.state.gas.used_gas),
            !self.state.gas.is_view ==> self.state.gas.used_gas <= self.state.gas.prepaid_gas,
    {
        if self.context.is_view {
            return Err(HostError::ProhibitedInView);
        }
        Ok(self.state.gas.used_gas)
    }

    /// Writes the 16 little-endian bytes of `x` into guest memory at `ptr`.
    fn write_u128(&mut self, ptr: u64, x: u128) -> (r: Result<(), HostError>)
        requires
            old(self).wf(),
        ensures
            final(self).wf(),
            final(self).context == old(self).context,
            final(self).state@ == old(self).state@,
            saved_view(final(self).saved) == saved_view(old(self).saved),
            range_fits(old(self).memory@.len(), ptr, 16) ==> r is Ok && final(self).memory@.len() == old(self).memory@.len()
                && le_value(final(self).memory@.subrange(ptr as int, ptr + 16)) == x
                && (forall|i: int| 0 <= i < old(self).memory@.len() && !(ptr <= i < ptr + 16) ==> final(self).memory@[i] == old(self).memory@[i]),
            !range_fits(old(self).memory@.len(), ptr, 16) ==> r == Err::<(), HostError>(HostError::MemoryAccessViolation)
                && final(self).memory@ == old(self).memory@,
    {
        let bytes = u128_to_le_bytes(x);
        let ghost b = bytes@;
        let r = self.memory.write(ptr, bytes.as_slice());
        proof {
            if range_fits(old(self).memory@.len(), ptr, 16) {
                assert(self.memory@.subrange(ptr as int, ptr + 16) =~= b);
            }
        }
        r
    }

    /// Writes the account balance, as 16 little-endian bytes, into guest
    /// memory at `balance_ptr`.
    pub fn account_balance(&mut self, balance_ptr: u64) -> (r: Result<(), HostError>)
        requires
            old(self).wf(),
        ensures
            final(self).wf(),
            final(self).context == old(self).context,
            final(self).state@ == old(self).state@,
            saved_view(final(self).saved) == saved_view(old(self).saved),
            range_fits(old(self).memory@.len(), balance_ptr, 16) ==> r is Ok && final(self).memory@.len() == old(self).memory@.len()
                && le_value(final(self).memory@.subrange(balance_ptr as int, balance_ptr + 16)) == old(self).state.balance
                && (forall|i: int| 0 <= i < old(self).memory@.len() && !(balance_ptr <= i < balance_ptr + 16) ==> final(self).memory@[i] == old(self).memory@[i]),
            !range_fits(old(self).memory@.len(), balance_ptr, 16) ==> r == Err::<(), HostError>(HostError::MemoryAccessViolation)
                && final(self).memory@ == old(self).memory@,
    {
        let x = self.state.balance;
        self.write_u128(balance_ptr, x)
    }

    /// Writes the locked balance, as 16 little-endian bytes, into guest
    /// memory at `balance_ptr`.
    pub fn account_locked_balance(&mut self, balance_ptr: u64) -> (r: Result<(), HostError>)
        requires
            old(self).wf(),
        ensures
            final(self).wf(),
            final(self).context == old(self).context,
            final(self).state@ == old(self).state@,
            saved_view(final(self).saved) == saved_view(old(self).saved),
            range_fits(old(self).memory@.len(), balance_ptr, 16) ==> r is Ok && final(self).memory@.len() == old(self).memory@.len()
                && le_value(final(self).memory@.subrange(balance_ptr as int, balance_ptr + 16)) == old(self).state.locked_balance
                && (forall|i: int| 0 <= i < old(self).memory@.len() && !(balance_ptr <= i < balance_ptr + 16) ==> final(self).memory@[i] == old(self).memory@[i]),
            !range_fits(old(self).memory@.len(), balance_ptr, 16) ==> r == Err::<(), HostError>(HostError::MemoryAccessViolation)
                && final(self).memory@ == old(self).memory@,
    {
        let x = self.state.locked_balance;
        self.write_u128(balance_ptr, x)
    }

    /// Writes the attached deposit, as 16 little-endian bytes, into guest
    /// memory at `balance_ptr`; not available in a view call.
    pub fn attached_deposit(&mut self, balance_ptr: u64) -> (r: Result<(), HostError>)
        requires
            old(self).wf(),
        ensures
            final(self).wf(),
            final(self).context == old(self).context,
            final(self).state@ == old(self).state@,
            saved_view(final(self).saved) == saved_view(old(self).saved),
            old(self).context.is_view ==> r == Err::<(), HostError>(HostError::ProhibitedInView)
                && final(self).memory@ == old(self).memory@,
            !old(self).context.is_view && range_fits(old(self).memory@.len(), balance_ptr, 16) ==> r is Ok && final(self).memory@.len() == old(self).memory@.len()
                && le_value(final(self).memory@.subrange(balance_ptr as int, balance_ptr + 16)) == old(self).context.attached_deposit
                && (forall|i: int| 0 <= i < old(self).memory@.len() && !(balance_ptr <= i < balance_ptr + 16) ==> final(self).memory@[i] == old(self).memory@[i]),
            !old(self).context.is_view && !range_fits(old(self).memory@.len(), balance_ptr, 16) ==> r == Err::<(), HostError>(HostError::MemoryAccessViolation)
                && final(self).memory@ == old(self).memory@,
    {
        if self.context.is_view {
            return Err(HostError::ProhibitedInView);
        }
        let x = self.context.attached_deposit;
        self.write_u128(balance_ptr, x)
    }
}

} // verus!
