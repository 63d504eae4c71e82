use vstd::prelude::*;
use crate::context::Context;
use crate::error::HostError;
use crate::gas::charge_spec;
use crate::ledger::{copy_u64s, Action, ActionView, ReceiptView};
use crate::memory::range_fits;
use crate::le::{le_to_u128, le_to_u64, le_value};
use crate::outside::{is_utf8, utf8_ok};
use crate::vm::{bytes_result, commits, fetch_spec, keeps_env, raw_source, HostView, Promise, PromiseView, ReturnData, ReturnDataView, Source, VM};

verus! {
/// The receipts a promise stands for.
pub open spec fn promise_receipts(p: PromiseView) -> Seq<u64> {
    match p {
        PromiseView::Receipt(r) => seq![r],
        PromiseView::NotReceipt(v) => v,
    }
}

/// Every receipt a promise stands for exists among the first `n` receipts.
pub open spec fn promises_wf(ps: Seq<PromiseView>, n: nat) -> bool {
    forall|i: int, j: int|
        0 <= i < ps.len() && 0 <= j < promise_receipts(ps[i]).len() ==> #[trigger] promise_receipts(ps[i])[j] < n
}

/// The receipt that actions for promise `promise_idx` go to.
pub open spec fn receipt_of(pre: HostView, promise_idx: u64) -> Result<u64, HostError> {
    if promise_idx >= pre.promises.len() {
        Err(HostError::InvalidPromiseIndex)
    } else {
        match pre.promises[promise_idx as int] {
            PromiseView::Receipt(r) => Ok(r),
            PromiseView::NotReceipt(_) => Err(HostError::CannotAppendActionToJointPromise),
        }
    }
}

/// An account id argument: the bytes a source names, which must be UTF-8.
pub open spec fn account_spec(mem: Seq<u8>, regs: Map<u64, Seq<u8>>, src: Source) -> Result<Seq<u8>, HostError> {
    match fetch_spec(mem, regs, src) {
        Err(e) => Err(e),
        Ok(b) => if utf8_ok(b) {
            Ok(b)
        } else {
            Err(HostError::BadUtf8)
        },
    }
}

/// The 16-byte little-endian amount at `ptr` in guest memory.
pub open spec fn u128_at(mem: Seq<u8>, ptr: u64) -> Result<u128, HostError> {
    if range_fits(mem.len(), ptr, 16) {
        Ok(le_value(mem.subrange(ptr as int, ptr + 16)) as u128)
    } else {
        Err(HostError::MemoryAccessViolation)
    }
}

/// The state with `a` appended to receipt `r`.
pub open spec fn appended(pre: HostView, r: u64, a: ActionView) -> HostView {
    HostView {
        receipts: pre.receipts.update(
            r as int,
            ReceiptView { actions: pre.receipts[r as int].actions.push(a), ..pre.receipts[r as int] },
        ),
        ..pre
    }
}

/// The state with a new receipt for `receiver` waiting on `deps`, and a new
/// promise standing for it.
pub open spec fn with_new_receipt(pre: HostView, deps: Seq<u64>, receiver: Seq<u8>) -> HostView {
    HostView {
        receipts: pre.receipts.push(ReceiptView { receipt_indices: deps, receiver_id: receiver, actions: Seq::empty() }),
        promises: pre.promises.push(PromiseView::Receipt(pre.receipts.len() as u64)),
        ..pre
    }
}

pub open spec fn promise_batch_create_outcome(pre: HostView, ctx: Context, mem: Seq<u8>, account: Source) -> Result<(u64, HostView), HostError> {
    if ctx.is_view {
        Err(HostError::ProhibitedInView)
    } else {
        match account_spec(mem, pre.registers, account) {
            Err(e) => Err(e),
            Ok(a) => Ok((pre.promises.len() as u64, with_new_receipt(pre, Seq::empty(), a))),
        }
    }
}

pub open spec fn promise_batch_then_outcome(pre: HostView, ctx: Context, mem: Seq<u8>, promise_idx: u64, account: Source) -> Result<(u64, HostView), HostError> {
    if ctx.is_view {
        Err(HostError::ProhibitedInView)
    } else {
        match account_spec(mem, pre.registers, account) {
            Err(e) => Err(e),
            Ok(a) => if promise_idx >= pre.promises.len() {
                Err(HostError::InvalidPromiseIndex)
            } else {
                Ok((
                    pre.promises.len() as u64,
                    with_new_receipt(pre, promise_receipts(pre.promises[promise_idx as int]), a),
                ))
            },
        }
    }
}

/// The receipts of the promises `ids`, in order, or `None` when one of them
/// does not exist.
pub open spec fn join_deps(ps: Seq<PromiseView>, ids: Seq<u64>) -> Option<Seq<u64>>
    decreases ids.len(),
{
    if ids.len() == 0 {
        Some(Seq::empty())
    } else {
        match join_deps(ps, ids.drop_last()) {
            None => None,
            Some(d) => if ids.last() < ps.len() {
                Some(d + promise_receipts(ps[ids.last() as int]))
            } else {
                None
            },
        }
    }
}

/// The `n` little-endian `u64`s that `b` holds.
pub open spec fn le_u64s(b: Seq<u8>, n: nat) -> Seq<u64> {
    Seq::new(n, |i: int| le_value(b.subrange(8 * i, 8 * i + 8)) as u64)
}

pub open spec fn promise_and_outcome(pre: HostView, ctx: Context, mem: Seq<u8>, ptr: u64, count: u64) -> Result<(u64, HostView), HostError> {
    if ctx.is_view {
        Err(HostError::ProhibitedInView)
    } else if count * 8 > u64::MAX || !range_fits(mem.len(), ptr, (count * 8) as u64) {
        Err(HostError::MemoryAccessViolation)
    } else {
        match join_deps(pre.promises, le_u64s(mem.subrange(ptr as int, ptr + count * 8), count as nat)) {
            None => Err(HostError::InvalidPromiseIndex),
            Some(d) => Ok((
                pre.promises.len() as u64,
                HostView { promises: pre.promises.push(PromiseView::NotReceipt(d)), ..pre },
            )),
        }
    }
}

/// An action host call: refused in a view call, then the action its
/// arguments describe, then appended to the promise's receipt.
pub open spec fn action_outcome(pre: HostView, ctx: Context, promise_idx: u64, action: Result<ActionView, HostError>) -> Result<((), HostView), HostError> {
    if ctx.is_view {
        Err(HostError::ProhibitedInView)
    } else {
        match action {
            Err(e) => Err(e),
            Ok(a) => match receipt_of(pre, promise_idx) {
                Err(e) => Err(e),
                Ok(r) => Ok(((), appended(pre, r, a))),
            },
        }
    }
}

/// An action built from one byte argument.
pub open spec fn bytes_action(b: Result<Seq<u8>, HostError>, f: spec_fn(Seq<u8>) -> ActionView) -> Result<ActionView, HostError> {
    match b {
        Err(e) => Err(e),
        Ok(v) => Ok(f(v)),
    }
}

pub open spec fn function_call_outcome(pre: HostView, ctx: Context, mem: Seq<u8>, promise_idx: u64, method: Source, args: Source, amount_ptr: u64, gas: u64) -> Result<((), HostView), HostError> {
    if ctx.is_view {
        Err(HostError::ProhibitedInView)
    } else {
        match u128_at(mem, amount_ptr) {
            Err(e) => Err(e),
            Ok(amount) => match fetch_spec(mem, pre.registers, method) {
                Err(e) => Err(e),
                Ok(m) => if m.len() == 0 {
                    Err(HostError::EmptyMethodName)
                } else {
                    match fetch_spec(mem, pre.registers, args) {
                        Err(e) => Err(e),
                        Ok(a) => match receipt_of(pre, promise_idx) {
                            Err(e) => Err(e),
                            Ok(r) => match charge_spec(pre.gas, 0, gas) {
                                Err(e) => Err(e),
                                Ok(g) => if amount > pre.balance {
                                    Err(HostError::BalanceExceeded)
                                } else {
                                    Ok((
                                        (),
                                        appended(
                                            HostView { gas: g, balance: (pre.balance - amount) as u128, ..pre },
                                            r,
                                            ActionView::FunctionCall { method_name: m, args: a, deposit: amount, gas },
                                        ),
                                    ))
                                },
                            },
                        },
                    }
                },
            },
        }
    }
}

pub open spec fn transfer_outcome(pre: HostView, ctx: Context, mem: Seq<u8>, promise_idx: u64, amount_ptr: u64) -> Result<((), HostView), HostError> {
    if ctx.is_view {
        Err(HostError::ProhibitedInView)
    } else {
        match u128_at(mem, amount_ptr) {
            Err(e) => Err(e),
            Ok(amount) => match receipt_of(pre, promise_idx) {
                Err(e) => Err(e),
                Ok(r) => if amount > pre.balance {
                    Err(HostError::BalanceExceeded)
                } else {
                    Ok((
                        (),
                        appended(
                            HostView { balance: (pre.balance - amount) as u128, ..pre },
                            r,
                            ActionView::Transfer { deposit: amount },
                        ),
                    ))
                },
            },
        }
    }
}

pub open spec fn stake_action(mem: Seq<u8>, regs: Map<u64, Seq<u8>>, amount_ptr: u64, public_key: Source) -> Result<ActionView, HostError> {
    match u128_at(mem, amount_ptr) {
        Err(e) => Err(e),
        Ok(amount) => match fetch_spec(mem, regs, public_key) {
            Err(e) => Err(e),
            Ok(pk) => Ok(ActionView::Stake { stake: amount, public_key: pk }),
        },
    }
}

/// The comma-separated pieces of `b`, empty pieces included.
pub open spec fn split_commas(b: Seq<u8>) -> Seq<Seq<u8>>
    decreases b.len(),
{
    if b.len() == 0 {
        seq![Seq::<u8>::empty()]
    } else {
        let rest = split_commas(b.drop_last());
        if b.last() == 44u8 {
            rest.push(Seq::empty())
        } else {
            rest.update(rest.len() - 1, rest.last().push(b.last()))
        }
    }
}

/// The method names a comma-separated list holds: none for an empty list.
pub open spec fn method_names_of(raw: Seq<u8>) -> Seq<Seq<u8>> {
    if raw.len() == 0 {
        Seq::empty()
    } else {
        split_commas(raw)
    }
}


pub open spec fn add_key_fc_action(mem: Seq<u8>, regs: Map<u64, Seq<u8>>, public_key: Source, nonce: u64, allowance_ptr: u64, receiver: Source, names: Source) -> Result<ActionView, HostError> {
    match fetch_spec(mem, regs, public_key) {
        Err(e) => Err(e),
        Ok(pk) => match u128_at(mem, allowance_ptr) {
            Err(e) => Err(e),
            Ok(allowance) => match account_spec(mem, regs, receiver) {
                Err(e) => Err(e),
                Ok(rcv) => match fetch_spec(mem, regs, names) {
                    Err(e) => Err(e),
                    Ok(raw) => if exists|i: int| 0 <= i < method_names_of(raw).len() && method_names_of(raw)[i].len() == 0 {
                        Err(HostError::EmptyMethodName)
                    } else {
                        Ok(ActionView::AddKeyWithFunctionCall {
                            public_key: pk,
                            nonce,
                            allowance: if allowance > 0 { Some(allowance) } else { None },
                            receiver_id: rcv,
                            method_names: method_names_of(raw),
                        })
                    },
                },
            },
        },
    }
}

pub open spec fn promise_return_outcome(pre: HostView, ctx: Context, promise_idx: u64) -> Result<((), HostView), HostError> {
    if ctx.is_view {
        Err(HostError::ProhibitedInView)
    } else if promise_idx >= pre.promises.len() {
        Err(HostError::InvalidPromiseIndex)
    } else {
        match pre.promises[promise_idx as int] {
            PromiseView::Receipt(r) => Ok(((), HostView { return_data: ReturnDataView::ReceiptIndex(r), ..pre })),
            PromiseView::NotReceipt(_) => Err(HostError::CannotReturnJointPromise),
        }
    }
}

/// Splits a comma-separated list of method names; fails when a name is empty.
pub fn split_method_names(raw: &[u8]) -> (r: Result<Vec<Vec<u8>>, HostError>)
    ensures
        (exists|i: int| 0 <= i < method_names_of(raw@).len() && method_names_of(raw@)[i].len() == 0)
            ==> r == Err::<Vec<Vec<u8>>, HostError>(HostError::EmptyMethodName),
        !(exists|i: int| 0 <= i < method_names_of(raw@).len() && method_names_of(raw@)[i].len() == 0)
            ==> (r matches Ok(v) && crate::ledger::names_view(v@) == method_names_of(raw@)),
{
    let mut names: Vec<Vec<u8>> = Vec::new();
    if raw.len() == 0 {
        assert(crate::ledger::names_view(names@) =~= method_names_of(raw@));
        return Ok(names);
    }
    let mut cur: Vec<u8> = Vec::new();
    let mut i: usize = 0;
    assert(raw@.subrange(0, 0) =~= Seq::<u8>::empty());
    assert(crate::ledger::names_view(names@).push(cur@) =~= split_commas(raw@.subrange(0, 0)));
    while i < raw.len()
        invariant
            i <= raw@.len(),
            crate::ledger::names_view(names@).push(cur@) == split_commas(raw@.subrange(0, i as int)),
        decreases raw@.len() - i,
    {
        let ghost before = raw@.subrange(0, i as int);
        assert(raw@.subrange(0, i + 1).drop_last() =~= before);
        if raw[i] == 44u8 {
            let piece = cur;
            names.push(piece);
            cur = Vec::new();
            assert(crate::ledger::names_view(names@).push(cur@) =~= split_commas(before).push(Seq::empty()));
        } else {
            cur.push(raw[i]);
            assert(crate::ledger::names_view(names@).push(cur@) =~= split_commas(before).update(
                split_commas(before).len() - 1,
                split_commas(before).last().push(raw@[i as int]),
            ));
        }
        i = i + 1;
    }
    assert(raw@.subrange(0, i as int) =~= raw@);
    names.push(cur);
    assert(crate::ledger::names_view(names@) =~= method_names_of(raw@));
    let mut k: usize = 0;
    while k < names.len()
        invariant
            k <= names@.len(),
            crate::ledger::names_view(names@) == method_names_of(raw@),
            forall|j: int| 0 <= j < k ==> names@[j]@.len() > 0,
        decreases names@.len() - k,
    {
        if names[k].len() == 0 {
            assert(method_names_of(raw@)[k as int].len() == 0);
            return Err(HostError::EmptyMethodName);
        }
        k = k + 1;
    }
    assert forall|j: int| 0 <= j < method_names_of(raw@).len() implies method_names_of(raw@)[j].len() != 0 by {
        assert(names@[j]@.len() > 0);
    }
    Ok(names)
}

impl VM {
    fn account_arg(&self, src: Source) -> (r: Result<Vec<u8>, HostError>)
        requires
            self.wf(),
        ensures
            bytes_result(r) == account_spec(self.memory@, self.state.registers@, src),
    {
        let b = self.fetch(src)?;
        if is_utf8(b.as_slice()) {
            Ok(b)
        } else {
            Err(HostError::BadUtf8)
        }
    }

    fn u128_arg(&self, ptr: u64) -> (r: Result<u128, HostError>)
        ensures
            r == u128_at(self.memory@, ptr),
    {
        let b = self.memory.read(ptr, 16)?;
        Ok(le_to_u128(b.as_slice()))
    }

    fn receipt_for(&self, promise_idx: u64) -> (r: Result<u64, HostError>)
        requires
            self.wf(),
        ensures
            r == receipt_of(self.state@, promise_idx),
            r matches Ok(x) ==> x < self.state@.receipts.len(),
    {
        if promise_idx >= self.state.promises.len() as u64 {
            return Err(HostError::InvalidPromiseIndex);
        }
        match &self.state.promises[promise_idx as usize] {
            Promise::Receipt(x) => {
                assert(promise_receipts(self.state@.promises[promise_idx as int])[0] == *x);
                Ok(*x)
            },
            Promise::NotReceipt(_) => Err(HostError::CannotAppendActionToJointPromise),
        }
    }

    fn push_promise(&mut self, p: Promise) -> (r: u64)
        requires
            old(self).wf(),
            forall|j: int| 0 <= j < promise_receipts(p@).len() ==> #[trigger] promise_receipts(p@)[j] < old(self).state@.receipts.len(),
        ensures
            final(self).wf(),
            keeps_env(*old(self), *final(self)),
            r == old(self).state@.promises.len(),
            final(self).state@ == (HostView { promises: old(self).state@.promises.push(p@), ..old(self).state@ }),
    {
        let ghost pv = p@;
        let r = self.state.promises.len() as u64;
        self.state.promises.push(p);
        assert(self.state@.promises =~= old(self).state@.promises.push(pv));
        r
    }

    fn new_receipt(&mut self, deps: Vec<u64>, receiver: Vec<u8>) -> (r: u64)
        requires
            old(self).wf(),
            forall|j: int| 0 <= j < deps@.len() ==> deps@[j] < old(self).state@.receipts.len(),
        ensures
            final(self).wf(),
            keeps_env(*old(self), *final(self)),
            r == old(self).state@.promises.len(),
            final(self).state@ == with_new_receipt(old(self).state@, deps@, receiver@),
    {
        let ghost pre = self.state@;
        let x = self.state.ledger.create_receipt(deps, receiver);
        assert(self.state@ == (HostView { receipts: self.state@.receipts, ..pre }));
        assert(promises_wf(self.state@.promises, self.state@.receipts.len()));
        self.push_promise(Promise::Receipt(x))
    }

    fn append(&mut self, receipt: u64, action: Action)
        requires
            old(self).wf(),
            receipt < old(self).state@.receipts.len(),
        ensures
            final(self).wf(),
            keeps_env(*old(self), *final(self)),
            final(self).state@ == appended(old(self).state@, receipt, action@),
    {
        self.state.ledger.append_action(receipt, action);
    }

    /// Creates a promise for a new receipt to the given account, with no
    /// actions yet; returns the promise's index.
    pub fn promise_batch_create(&mut self, account_id_len: u64, account_id_ptr: u64) -> (r: Result<u64, HostError>)
        requires
            old(self).wf(),
        ensures
            final(self).wf(),
            keeps_env(*old(self), *final(self)),
            commits(
                promise_batch_create_outcome(old(self).state@, old(self).context, old(self).memory@, raw_source(account_id_ptr, account_id_len)),
                r,
                old(self).state@,
                final(self).state@,
            ),
    {
        if self.context.is_view {
            return Err(HostError::ProhibitedInView);
        }
        let account = self.account_arg(Source::from_raw(account_id_ptr, account_id_len))?;
        Ok(self.new_receipt(Vec::new(), account))
    }

    /// Creates a promise for a new receipt to the given account that waits on
    /// the receipts of promise `promise_idx`; returns the new promise's index.
    pub fn promise_batch_then(&mut self, promise_idx: u64, account_id_len: u64, account_id_ptr: u64) -> (r: Result<u64, HostError>)
        requires
            old(self).wf(),
        ensures
            final(self).wf(),
            keeps_env(*old(self), *final(self)),
            commits(
                promise_batch_then_outcome(old(self).state@, old(self).context, old(self).memory@, promise_idx, raw_source(account_id_ptr, account_id_len)),
                r,
                old(self).state@,
                final(self).state@,
            ),
    {
        if self.context.is_view {
            return Err(HostError::ProhibitedInView);
        }
        let account = self.account_arg(Source::from_raw(account_id_ptr, account_id_len))?;
        if promise_idx >= self.state.promises.len() as u64 {
            return Err(HostError::InvalidPromiseIndex);
        }
        let deps = match &self.state.promises[promise_idx as usize] {
            Promise::Receipt(x) => {
                let mut d: Vec<u64> = Vec::new();
                d.push(*x);
                assert(d@ =~= promise_receipts(self.state@.promises[promise_idx as int]));
                d
            },
            Promise::NotReceipt(v) => {
                let d = copy_u64s(v);
                assert(d@ =~= promise_receipts(self.state@.promises[promise_idx as int]));
                d
            },
        };
        assert forall|j: int| 0 <= j < deps@.len() implies deps@[j] < self.state@.receipts.len() by {
            assert(promise_receipts(self.state@.promises[promise_idx as int])[j] < self.state@.receipts.len());
        }
        Ok(self.new_receipt(deps, account))
    }

    /// Creates a promise that joins the promises whose `promise_idx_count`
    /// little-endian `u64` indices lie in guest memory at `promise_idx_ptr`.
    pub fn promise_and(&mut self, promise_idx_ptr: u64, promise_idx_count: u64) -> (r: Result<u64, HostError>)
        requires
            old(self).wf(),
        ensures
            final(self).wf(),
            keeps_env(*old(self), *final(self)),
            commits(
                promise_and_outcome(old(self).state@, old(self).context, old(self).memory@, promise_idx_ptr, promise_idx_count),
                r,
                old(self).state@,
                final(self).state@,
            ),
    {
        if self.context.is_view {
            return Err(HostError::ProhibitedInView);
        }
        let total = match promise_idx_count.checked_mul(8) {
            Some(t) => t,
            None => { return Err(HostError::MemoryAccessViolation); },
        };
        let bytes = self.memory.read(promise_idx_ptr, total)?;
        let blen = bytes.len();
        let ghost ids = le_u64s(bytes@, promise_idx_count as nat);
        assert(bytes@ == self.memory@.subrange(promise_idx_ptr as int, promise_idx_ptr + promise_idx_count * 8));
        let mut deps: Vec<u64> = Vec::new();
        let mut i: u64 = 0;
        while i < promise_idx_count
            invariant
                self.wf(),
                total == promise_idx_count * 8,
                bytes@.len() == total,
                blen == bytes@.len(),
                self.state@ == old(self).state@,
                self.context == old(self).context,
                !old(self).context.is_view,
                range_fits(old(self).memory@.len(), promise_idx_ptr, total),
                bytes@ == old(self).memory@.subrange(promise_idx_ptr as int, promise_idx_ptr + promise_idx_count * 8),
                ids == le_u64s(bytes@, promise_idx_count as nat),
                i <= promise_idx_count,
                join_deps(self.state@.promises, ids.subrange(0, i as int)) == Some(deps@),
                forall|j: int| 0 <= j < deps@.len() ==> deps@[j] < self.state@.receipts.len(),
            decreases promise_idx_count - i,
        {
            assert(8 * i + 8 <= total) by (nonlinear_arith)
                requires i < promise_idx_count, total == promise_idx_count * 8;
            let start = (8 * i) as usize;
            let mut chunk: Vec<u8> = Vec::new();
            let mut t: usize = 0;
            while t < 8
                invariant
                    t <= 8,
                    start + 8 <= blen,
                    blen == bytes@.len(),
                    chunk@ =~= bytes@.subrange(start as int, start + t),
                decreases 8 - t,
            {
                chunk.push(bytes[start + t]);
                t = t + 1;
            }
            let id = le_to_u64(chunk.as_slice());
            assert(ids[i as int] == id);
            assert(ids.subrange(0, i + 1).drop_last() =~= ids.subrange(0, i as int));
            if id >= self.state.promises.len() as u64 {
                assert(join_deps(self.state@.promises, ids.subrange(0, i + 1)) is None);
                proof {
                    lemma_join_deps_fails(self.state@.promises, ids, i as int + 1, promise_idx_count as int);
                    assert(ids.subrange(0, promise_idx_count as int) =~= ids);
                }
                return Err(HostError::InvalidPromiseIndex);
            }
            let ghost before = deps@;
            match &self.state.promises[id as usize] {
                Promise::Receipt(x) => {
                    deps.push(*x);
                    assert(deps@ =~= before + promise_receipts(self.state@.promises[id as int]));
                },
                Promise::NotReceipt(v) => {
                    let mut u: usize = 0;
                    while u < v.len()
                        invariant
                            u <= v@.len(),
                            deps@ =~= before + v@.subrange(0, u as int),
                        decreases v@.len() - u,
                    {
                        deps.push(v[u]);
                        u = u + 1;
                    }
                    assert(v@.subrange(0, u as int) =~= v@);
                },
            }
            assert forall|j: int| 0 <= j < deps@.len() implies deps@[j] < self.state@.receipts.len() by {
                if j >= before.len() {
                    assert(promise_receipts(self.state@.promises[id as int])[j - before.len()] < self.state@.receipts.len());
                }
            }
            i = i + 1;
        }
        assert(ids.subrange(0, i as int) =~= ids);
        assert(bytes@ == self.memory@.subrange(promise_idx_ptr as int, promise_idx_ptr + promise_idx_count * 8));
        Ok(self.push_promise(Promise::NotReceipt(deps)))
    }
}

/// Once joining a prefix of the ids fails, joining any longer prefix fails.
proof fn lemma_join_deps_fails(ps: Seq<PromiseView>, ids: Seq<u64>, i: int, n: int)
    requires
        0 <= i <= n <= ids.len(),
        join_deps(ps, ids.subrange(0, i)) is None,
    ensures
        join_deps(ps, ids.subrange(0, n)) is None,
    decreases n - i,
{
    if i < n {
        assert(ids.subrange(0, i + 1).drop_last() =~= ids.subrange(0, i));
        lemma_join_deps_fails(ps, ids, i + 1, n);
    }
}

/// An action host call's ensures: it leaves the environment alone and
/// commits to `outcome`.
pub open spec fn action_commits(pre: VM, post: VM, outcome: Result<((), HostView), HostError>, r: Result<(), HostError>) -> bool {
    keeps_env(pre, post) && commits(outcome, r, pre.state@, post.state@)
}

/// The two-step outcome of creating a promise and attaching a function call
/// to it: both steps commit, or neither does.
pub open spec fn then_call(first: Result<(u64, HostView), HostError>, ctx: Context, mem: Seq<u8>, method: Source, args: Source, amount_ptr: u64, gas: u64) -> Result<(u64, HostView), HostError> {
    match first {
        Err(e) => Err(e),
        Ok((idx, mid)) => match function_call_outcome(mid, ctx, mem, idx, method, args, amount_ptr, gas) {
            Err(e) => Err(e),
            Ok((_, post)) => Ok((idx, post)),
        },
    }
}

impl VM {
    /// Appends a `CreateAccount` action to promise `promise_idx`.
    pub fn promise_batch_action_create_account(&mut self, promise_idx: u64) -> (r: Result<(), HostError>)
        requires
            old(self).wf(),
        ensures
            final(self).wf(),
            action_commits(*old(self), *final(self), action_outcome(old(self).state@, old(self).context, promise_idx, Ok(ActionView::CreateAccount)), r),
    {
        if self.context.is_view {
            return Err(HostError::ProhibitedInView);
        }
        let receipt = self.receipt_for(promise_idx)?;
        self.append(receipt, Action::CreateAccount);
        Ok(())
    }

    /// Appends a `DeployContract` action with the given code to promise
    /// `promise_idx`.
    pub fn promise_batch_action_deploy_contract(&mut self, promise_idx: u64, code_len: u64, code_ptr: u64) -> (r: Result<(), HostError>)
        requires
            old(self).wf(),
        ensures
            final(self).wf(),
            action_commits(*old(self), *final(self), action_outcome(old(self).state@, old(self).context, promise_idx,
                bytes_action(fetch_spec(old(self).memory@, old(self).state@.registers, raw_source(code_ptr, code_len)), |c: Seq<u8>| ActionView::DeployContract { code: c })), r),
    {
        if self.context.is_view {
            return Err(HostError::ProhibitedInView);
        }
        let code = self.fetch(Source::from_raw(code_ptr, code_len))?;
        let receipt = self.receipt_for(promise_idx)?;
        self.append(receipt, Action::DeployContract { code });
        Ok(())
    }

    /// Appends a `FunctionCall` action to promise `promise_idx`, paying the
    /// attached amount from the balance and the attached gas from the
    /// prepaid gas.
    pub fn promise_batch_action_function_call(&mut self, promise_idx: u64, method_name_len: u64, method_name_ptr: u64, arguments_len: u64, arguments_ptr: u64, amount_ptr: u64, gas: u64) -> (r: Result<(), HostError>)
        requires
            old(self).wf(),
        ensures
            final(self).wf(),
            action_commits(*old(self), *final(self), function_call_outcome(old(self).state@, old(self).context, old(self).memory@, promise_idx,
                raw_source(method_name_ptr, method_name_len), raw_source(arguments_ptr, arguments_len), amount_ptr, gas), r),
    {
        if self.context.is_view {
            return Err(HostError::ProhibitedInView);
        }
        let amount = self.u128_arg(amount_ptr)?;
        let method_name = self.fetch(Source::from_raw(method_name_ptr, method_name_len))?;
        if method_name.len() == 0 {
            return Err(HostError::EmptyMethodName);
        }
        let args = self.fetch(Source::from_raw(arguments_ptr, arguments_len))?;
        let receipt = self.receipt_for(promise_idx)?;
        let g = self.state.gas.charged(0, gas)?;
        if amount > self.state.balance {
            return Err(HostError::BalanceExceeded);
        }
        self.state.gas = g;
        self.state.balance = self.state.balance - amount;
        self.append(receipt, Action::FunctionCall { method_name, args, deposit: amount, gas });
        Ok(())
    }

    /// Appends a `Transfer` action to promise `promise_idx`, paying the
    /// amount from the balance.
    pub fn promise_batch_action_transfer(&mut self, promise_idx: u64, amount_ptr: u64) -> (r: Result<(), HostError>)
        requires
            old(self).wf(),
        ensures
            final(self).wf(),
            action_commits(*old(self), *final(self), transfer_outcome(old(self).state@, old(self).context, old(self).memory@, promise_idx, amount_ptr), r),
    {
        if self.context.is_view {
            return Err(HostError::ProhibitedInView);
        }
        let amount = self.u128_arg(amount_ptr)?;
        let receipt = self.receipt_for(promise_idx)?;
        if amount > self.state.balance {
            return Err(HostError::BalanceExceeded);
        }
        self.state.balance = self.state.balance - amount;
        self.append(receipt, Action::Transfer { deposit: amount });
        Ok(())
    }

    /// Appends a `Stake` action to promise `promise_idx`.
    pub fn promise_batch_action_stake(&mut self, promise_idx: u64, amount_ptr: u64, public_key_len: u64, public_key_ptr: u64) -> (r: Result<(), HostError>)
        requires
            old(self).wf(),
        ensures
            final(self).wf(),
            action_commits(*old(self), *final(self), action_outcome(old(self).state@, old(self).context, promise_idx,
                stake_action(old(self).memory@, old(self).state@.registers, amount_ptr, raw_source(public_key_ptr, public_key_len))), r),
    {
        if self.context.is_view {
            return Err(HostError::ProhibitedInView);
        }
        let amount = self.u128_arg(amount_ptr)?;
        let public_key = self.fetch(Source::from_raw(public_key_ptr, public_key_len))?;
        let receipt = self.receipt_for(promise_idx)?;
        self.append(receipt, Action::Stake { stake: amount, public_key });
        Ok(())
    }

    /// Appends an `AddKeyWithFullAccess` action to promise `promise_idx`.
    pub fn promise_batch_action_add_key_with_full_access(&mut self, promise_idx: u64, public_key_len: u64, public_key_ptr: u64, nonce: u64) -> (r: Result<(), HostError>)
        requires
            old(self).wf(),
        ensures
            final(self).wf(),
            action_commits(*old(self), *final(self), action_outcome(old(self).state@, old(self).context, promise_idx,
                bytes_action(fetch_spec(old(self).memory@, old(self).state@.registers, raw_source(public_key_ptr, public_key_len)),
                    |pk: Seq<u8>| ActionView::AddKeyWithFullAccess { public_key: pk, nonce })), r),
    {
        if self.context.is_view {
            return Err(HostError::ProhibitedInView);
        }
        let public_key = self.fetch(Source::from_raw(public_key_ptr, public_key_len))?;
        let receipt = self.receipt_for(promise_idx)?;
        self.append(receipt, Action::AddKeyWithFullAccess { public_key, nonce });
        Ok(())
    }

    /// Appends an `AddKeyWithFunctionCall` action to promise `promise_idx`: a
    /// key that may call the listed methods (comma-separated; none listed
    /// means any) of `receiver_id`, spending at most the allowance (zero
    /// means unlimited).
    pub fn promise_batch_action_add_key_with_function_call(&mut self, promise_idx: u64, public_key_len: u64, public_key_ptr: u64, nonce: u64, allowance_ptr: u64, receiver_id_len: u64, receiver_id_ptr: u64, method_names_len: u64, method_names_ptr: u64) -> (r: Result<(), HostError>)
        requires
            old(self).wf(),
        ensures
            final(self).wf(),
            action_commits(*old(self), *final(self), action_outcome(old(self).state@, old(self).context, promise_idx,
                add_key_fc_action(old(self).memory@, old(self).state@.registers, raw_source(public_key_ptr, public_key_len), nonce, allowance_ptr,
                    raw_source(receiver_id_ptr, receiver_id_len), raw_source(method_names_ptr, method_names_len))), r),
    {
        if self.context.is_view {
            return Err(HostError::ProhibitedInView);
        }
        let public_key = self.fetch(Source::from_raw(public_key_ptr, public_key_len))?;
        let allowance = self.u128_arg(allowance_ptr)?;
        let receiver_id = self.account_arg(Source::from_raw(receiver_id_ptr, receiver_id_len))?;
        let raw = self.fetch(Source::from_raw(method_names_ptr, method_names_len))?;
        let method_names = split_method_names(raw.as_slice())?;
        let receipt = self.receipt_for(promise_idx)?;
        let allowance = if allowance > 0 { Some(allowance) } else { None };
        self.append(receipt, Action::AddKeyWithFunctionCall { public_key, nonce, allowance, receiver_id, method_names });
        Ok(())
    }

    /// Appends a `DeleteKey` action to promise `promise_idx`.
    pub fn promise_batch_action_delete_key(&mut self, promise_idx: u64, public_key_len: u64, public_key_ptr: u64) -> (r: Result<(), HostError>)
        requires
            old(self).wf(),
        ensures
            final(self).wf(),
            action_commits(*old(self), *final(self), action_outcome(old(self).state@, old(self).context, promise_idx,
                bytes_action(fetch_spec(old(self).memory@, old(self).state@.registers, raw_source(public_key_ptr, public_key_len)),
                    |pk: Seq<u8>| ActionView::DeleteKey { public_key: pk })), r),
    {
        if self.context.is_view {
            return Err(HostError::ProhibitedInView);
        }
        let public_key = self.fetch(Source::from_raw(public_key_ptr, public_key_len))?;
        let receipt = self.receipt_for(promise_idx)?;
        self.append(receipt, Action::DeleteKey { public_key });
        Ok(())
    }

    /// Appends a `DeleteAccount` action, sending what is left to the
    /// beneficiary, to promise `promise_idx`.
    pub fn promise_batch_action_delete_account(&mut self, promise_idx: u64, beneficiary_id_len: u64, beneficiary_id_ptr: u64) -> (r: Result<(), HostError>)
        requires
            old(self).wf(),
        ensures
            final(self).wf(),
            action_commits(*old(self), *final(self), action_outcome(old(self).state@, old(self).context, promise_idx,
                bytes_action(account_spec(old(self).memory@, old(self).state@.registers, raw_source(beneficiary_id_ptr, beneficiary_id_len)),
                    |b: Seq<u8>| ActionView::DeleteAccount { beneficiary_id: b })), r),
    {
        if self.context.is_view {
            return Err(HostError::ProhibitedInView);
        }
        let beneficiary_id = self.account_arg(Source::from_raw(beneficiary_id_ptr, beneficiary_id_len))?;
        let receipt = self.receipt_for(promise_idx)?;
        self.append(receipt, Action::DeleteAccount { beneficiary_id });
        Ok(())
    }

    /// Creates a promise to call a method on an account with the given
    /// arguments, amount and gas; returns its index. Both steps commit or
    /// neither does.
    pub fn promise_create(&mut self, account_id_len: u64, account_id_ptr: u64, method_name_len: u64, method_name_ptr: u64, arguments_len: u64, arguments_ptr: u64, amount_ptr: u64, gas: u64) -> (r: Result<u64, HostError>)
        requires
            old(self).wf(),
        ensures
            final(self).wf(),
            keeps_env(*old(self), *final(self)),
            commits(
                then_call(
                    promise_batch_create_outcome(old(self).state@, old(self).context, old(self).memory@, raw_source(account_id_ptr, account_id_len)),
                    old(self).context, old(self).memory@, raw_source(method_name_ptr, method_name_len), raw_source(arguments_ptr, arguments_len), amount_ptr, gas,
                ),
                r,
                old(self).state@,
                final(self).state@,
            ),
    {
        let before = self.state.copy();
        let idx = self.promise_batch_create(account_id_len, account_id_ptr)?;
        match self.promise_batch_action_function_call(idx, method_name_len, method_name_ptr, arguments_len, arguments_ptr, amount_ptr, gas) {
            Ok(()) => Ok(idx),
            Err(e) => {
                self.state = before;
                Err(e)
            },
        }
    }

    /// Creates a promise, run after promise `promise_idx`, to call a method on
    /// an account with the given arguments, amount and gas; returns its
    /// index. Both steps commit or neither does.
    pub fn promise_then(&mut self, promise_idx: u64, account_id_len: u64, account_id_ptr: u64, method_name_len: u64, method_name_ptr: u64, arguments_len: u64, arguments_ptr: u64, amount_ptr: u64, gas: u64) -> (r: Result<u64, HostError>)
        requires
            old(self).wf(),
        ensures
            final(self).wf(),
            keeps_env(*old(self), *final(self)),
            commits(
                then_call(
                    promise_batch_then_outcome(old(self).state@, old(self).context, old(self).memory@, promise_idx, raw_source(account_id_ptr, account_id_len)),
                    old(self).context, old(self).memory@, raw_source(method_name_ptr, method_name_len), raw_source(arguments_ptr, arguments_len), amount_ptr, gas,
                ),
                r,
                old(self).state@,
                final(self).state@,
            ),
    {
        let before = self.state.copy();
        let idx = self.promise_batch_then(promise_idx, account_id_len, account_id_ptr)?;
        match self.promise_batch_action_function_call(idx, method_name_len, method_name_ptr, arguments_len, arguments_ptr, amount_ptr, gas) {
            Ok(()) => Ok(idx),
            Err(e) => {
                self.state = before;
                Err(e)
            },
        }
    }

    /// Makes the call return the receipt of promise `promise_idx`.
    pub fn promise_return(&mut self, promise_idx: u64) -> (r: Result<(), HostError>)
        requires
            old(self).wf(),
        ensures
            final(self).wf(),
            action_commits(*old(self), *final(self), promise_return_outcome(old(self).state@, old(self).context, promise_idx), r),
    {
        if self.context.is_view {
            return Err(HostError::ProhibitedInView);
        }
        if promise_idx >= self.state.promises.len() as u64 {
            return Err(HostError::InvalidPromiseIndex);
        }
        let x = match &self.state.promises[promise_idx as usize] {
            Promise::Receipt(x) => *x,
            Promise::NotReceipt(_) => { return Err(HostError::CannotReturnJointPromise); },
        };
        self.state.return_data = ReturnData::ReceiptIndex(x);
        Ok(())
    }

    /// The number of promise results available to the call: none in this
    /// host; not available in a view call.
    pub fn promise_results_count(&self) -> (r: Result<u64, HostError>)
        ensures
            self.context.is_view ==> r == Err::<u64, HostError>(HostError::ProhibitedInView),
            !self.context.is_view ==> r == Ok::<u64, HostError>(0),
    {
        if self.context.is_view {
            return Err(HostError::ProhibitedInView);
        }
        Ok(0)
    }

    /// The result of promise `result_idx`: this host has none, so every index
    /// is invalid; not available in a view call.
    pub fn promise_result(&self, result_idx: u64, register_id: u64) -> (r: Result<u64, HostError>)
        ensures
            self.context.is_view ==> r == Err::<u64, HostError>(HostError::ProhibitedInView),
            !self.context.is_view ==> r == Err::<u64, HostError>(HostError::InvalidPromiseResultIndex),
    {
        if self.context.is_view {
            return Err(HostError::ProhibitedInView);
        }
        Err(HostError::InvalidPromiseResultIndex)
    }
}

} // verus!
