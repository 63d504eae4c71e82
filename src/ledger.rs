use vstd::prelude::*;
use crate::bytes::copy_bytes;

verus! {

/// An action recorded against a receipt.
pub enum Action {
    CreateAccount,
    DeployContract { code: Vec<u8> },
    FunctionCall { method_name: Vec<u8>, args: Vec<u8>, deposit: u128, gas: u64 },
    Transfer { deposit: u128 },
    Stake { stake: u128, public_key: Vec<u8> },
    AddKeyWithFullAccess { public_key: Vec<u8>, nonce: u64 },
    AddKeyWithFunctionCall {
        public_key: Vec<u8>,
        nonce: u64,
        allowance: Option<u128>,
        receiver_id: Vec<u8>,
        method_names: Vec<Vec<u8>>,
    },
    DeleteKey { public_key: Vec<u8> },
    DeleteAccount { beneficiary_id: Vec<u8> },
}

pub enum ActionView {
    CreateAccount,
    DeployContract { code: Seq<u8> },
    FunctionCall { method_name: Seq<u8>, args: Seq<u8>, deposit: u128, gas: u64 },
    Transfer { deposit: u128 },
    Stake { stake: u128, public_key: Seq<u8> },
    AddKeyWithFullAccess { public_key: Seq<u8>, nonce: u64 },
    AddKeyWithFunctionCall {
        public_key: Seq<u8>,
        nonce: u64,
        allowance: Option<u128>,
        receiver_id: Seq<u8>,
        method_names: Seq<Seq<u8>>,
    },
    DeleteKey { public_key: Seq<u8> },
    DeleteAccount { beneficiary_id: Seq<u8> },
}

pub open spec fn names_view(names: Seq<Vec<u8>>) -> Seq<Seq<u8>> {
    names.map_values(|n: Vec<u8>| n@)
}

impl Action {
    pub open spec fn view(&self) -> ActionView {
        match self {
            Action::CreateAccount => ActionView::CreateAccount,
            Action::DeployContract { code } => ActionView::DeployContract { code: code@ },
            Action::FunctionCall { method_name, args, deposit, gas } => ActionView::FunctionCall {
                method_name: method_name@,
                args: args@,
                deposit: *deposit,
                gas: *gas,
            },
            Action::Transfer { deposit } => ActionView::Transfer { deposit: *deposit },
            Action::Stake { stake, public_key } => ActionView::Stake {
                stake: *stake,
                public_key: public_key@,
            },
            Action::AddKeyWithFullAccess { public_key, nonce } => ActionView::AddKeyWithFullAccess {
                public_key: public_key@,
                nonce: *nonce,
            },
            Action::AddKeyWithFunctionCall {
                public_key,
                nonce,
                allowance,
                receiver_id,
                method_names,
            } => ActionView::AddKeyWithFunctionCall {
                public_key: public_key@,
                nonce: *nonce,
                allowance: *allowance,
                receiver_id: receiver_id@,
                method_names: names_view(method_names@),
            },
            Action::DeleteKey { public_key } => ActionView::DeleteKey { public_key: public_key@ },
            Action::DeleteAccount { beneficiary_id } => ActionView::DeleteAccount {
                beneficiary_id: beneficiary_id@,
            },
        }
    }
}

/// A receipt: the receipts it waits on, its receiver and its actions, in the
/// order they were appended.
pub struct Receipt {
    pub receipt_indices: Vec<u64>,
    pub receiver_id: Vec<u8>,
    pub actions: Vec<Action>,
}

pub struct ReceiptView {
    pub receipt_indices: Seq<u64>,
    pub receiver_id: Seq<u8>,
    pub actions: Seq<ActionView>,
}

impl Receipt {
    pub open spec fn view(&self) -> ReceiptView {
        ReceiptView {
            receipt_indices: self.receipt_indices@,
            receiver_id: self.receiver_id@,
            actions: self.actions@.map_values(|a: Action| a@),
        }
    }
}

/// The append-only list of receipts; a receipt's index is its position.
pub struct Ledger {
    pub receipts: Vec<Receipt>,
}

fn copy_names(names: &Vec<Vec<u8>>) -> (r: Vec<Vec<u8>>)
    ensures
        names_view(r@) == names_view(names@),
{
    let mut r: Vec<Vec<u8>> = Vec::with_capacity(names.len());
    let mut i: usize = 0;
    while i < names.len()
        invariant
            i <= names@.len(),
            r@.len() == i,
            forall|j: int| 0 <= j < i ==> (#[trigger] r@[j])@ == names@[j]@,
        decreases names@.len() - i,
    {
        r.push(copy_bytes(names[i].as_slice()));
        i = i + 1;
    }
    assert(names_view(r@) =~= names_view(names@));
    r
}

/// A fresh vector holding the same integers.
pub(crate) fn copy_u64s(v: &Vec<u64>) -> (r: Vec<u64>)
    ensures
        r@ == v@,
{
    let mut r: Vec<u64> = Vec::with_capacity(v.len());
    let mut i: usize = 0;
    while i < v.len()
        invariant
            i <= v@.len(),
            r@ =~= v@.subrange(0, i as int),
        decreases v@.len() - i,
    {
        r.push(v[i]);
        i = i + 1;
    }
    assert(r@ =~= v@);
    r
}

impl Action {
    /// An independent copy.
    pub fn copy(&self) -> (r: Action)
        ensures
            r@ == self@,
    {
        match self {
            Action::CreateAccount => Action::CreateAccount,
            Action::DeployContract { code } => Action::DeployContract { code: copy_bytes(code.as_slice()) },
            Action::FunctionCall { method_name, args, deposit, gas } => Action::FunctionCall {
                method_name: copy_bytes(method_name.as_slice()),
                args: copy_bytes(args.as_slice()),
                deposit: *deposit,
                gas: *gas,
            },
            Action::Transfer { deposit } => Action::Transfer { deposit: *deposit },
            Action::Stake { stake, public_key } => Action::Stake {
                stake: *stake,
                public_key: copy_bytes(public_key.as_slice()),
            },
            Action::AddKeyWithFullAccess { public_key, nonce } => Action::AddKeyWithFullAccess {
                public_key: copy_bytes(public_key.as_slice()),
                nonce: *nonce,
            },
            Action::AddKeyWithFunctionCall {
                public_key,
                nonce,
                allowance,
                receiver_id,
                method_names,
            } => Action::AddKeyWithFunctionCall {
                public_key: copy_bytes(public_key.as_slice()),
                nonce: *nonce,
                allowance: *allowance,
                receiver_id: copy_bytes(receiver_id.as_slice()),
                method_names: copy_names(method_names),
            },
            Action::DeleteKey { public_key } => Action::DeleteKey {
                public_key: copy_bytes(public_key.as_slice()),
            },
            Action::DeleteAccount { beneficiary_id } => Action::DeleteAccount {
                beneficiary_id: copy_bytes(beneficiary_id.as_slice()),
            },
        }
    }
}

impl Receipt {
    /// An independent copy.
    pub fn copy(&self) -> (r: Receipt)
        ensures
            r@ == self@,
    {
        let mut actions: Vec<Action> = Vec::with_capacity(self.actions.len());
        let mut i: usize = 0;
        while i < self.actions.len()
            invariant
                i <= self.actions@.len(),
                actions@.len() == i,
                forall|j: int| 0 <= j < i ==> (#[trigger] actions@[j])@ == self.actions@[j]@,
            decreases self.actions@.len() - i,
        {
            actions.push(self.actions[i].copy());
            i = i + 1;
        }
        let r = Receipt {
            receipt_indices: copy_u64s(&self.receipt_indices),
            receiver_id: copy_bytes(self.receiver_id.as_slice()),
            actions,
        };
        assert(r.actions@.map_values(|a: Action| a@) =~= self.actions@.map_values(|a: Action| a@));
        r
    }
}

impl Ledger {
    pub open spec fn view(&self) -> Seq<ReceiptView> {
        self.receipts@.map_values(|r: Receipt| r@)
    }

    pub fn new() -> (r: Ledger)
        ensures
            r@ == Seq::<ReceiptView>::empty(),
    {
        let r = Ledger { receipts: Vec::new() };
        assert(r@ =~= Seq::<ReceiptView>::empty());
        r
    }

    pub fn len(&self) -> (r: usize)
        ensures
            r == self@.len(),
    {
        self.receipts.len()
    }

    /// Appends a receipt for `receiver_id` that waits on `receipt_indices`
    /// and holds no action yet; returns its index. Every index it waits on
    /// must already exist.
    pub fn create_receipt(&mut self, receipt_indices: Vec<u64>, receiver_id: Vec<u8>) -> (r: u64)
        requires
            forall|i: int| 0 <= i < receipt_indices@.len() ==> receipt_indices@[i] < old(self)@.len(),
        ensures
            r == old(self)@.len(),
            final(self)@ == old(self)@.push(
                ReceiptView {
                    receipt_indices: receipt_indices@,
                    receiver_id: receiver_id@,
                    actions: Seq::empty(),
                },
            ),
    {
        let r = self.receipts.len() as u64;
        let ghost deps = receipt_indices@;
        let ghost recv = receiver_id@;
        let fresh = Receipt { receipt_indices, receiver_id, actions: Vec::new() };
        assert(fresh.actions@.map_values(|a: Action| a@) =~= Seq::<ActionView>::empty());
        self.receipts.push(fresh);
        assert(self@ =~= old(self)@.push(
            ReceiptView { receipt_indices: deps, receiver_id: recv, actions: Seq::empty() },
        ));
        r
    }

    /// Appends `action` to receipt `receipt_index`, which must exist.
    pub fn append_action(&mut self, receipt_index: u64, action: Action)
        requires
            receipt_index < old(self)@.len(),
        ensures
            final(self)@ == old(self)@.update(
                receipt_index as int,
                ReceiptView {
                    actions: old(self)@[receipt_index as int].actions.push(action@),
                    ..old(self)@[receipt_index as int]
                },
            ),
    {
        let ghost a = action@;
        let n = self.receipts.len();
        assert(receipt_index < n);
        let i = receipt_index as usize;
        self.receipts[i].actions.push(action);
        assert(self.receipts@[i as int].actions@.map_values(|x: Action| x@) =~= old(
            self,
        ).receipts@[i as int].actions@.map_values(|x: Action| x@).push(a));
        assert(self@ =~= old(self)@.update(
            receipt_index as int,
            ReceiptView {
                actions: old(self)@[receipt_index as int].actions.push(a),
                ..old(self)@[receipt_index as int]
            },
        ));
    }

    /// An independent copy.
    pub fn copy(&self) -> (r: Ledger)
        ensures
            r@ == self@,
    {
        let mut receipts: Vec<Receipt> = Vec::with_capacity(self.receipts.len());
        let mut i: usize = 0;
        while i < self.receipts.len()
            invariant
                i <= self.receipts@.len(),
                receipts@.len() == i,
                forall|j: int| 0 <= j < i ==> (#[trigger] receipts@[j])@ == self.receipts@[j]@,
            decreases self.receipts@.len() - i,
        {
            receipts.push(self.receipts[i].copy());
            i = i + 1;
        }
        let r = Ledger { receipts };
        assert(r@ =~= self@);
        r
    }
}

} // verus!
