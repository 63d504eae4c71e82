use vstd::prelude::*;
use crate::bytes::copy_bytes;
use crate::error::HostError;
use crate::bytes::{has_prefix, lex_lt};
use crate::storage::{in_window, is_live, is_next_key, lemma_least_exists, law_iteration_step, law_prefix_start, law_range_start, remaining, touch, BoundView, CursorView, IterView};
use crate::vm::{commits, fetch_spec, raw_source, saved_view, HostView, Source, VM};

verus! {
/// Storage usage after storing `v` under `k`, or `None` when it leaves `u64`.
pub open spec fn usage_after_write(u: u64, m: Map<Seq<u8>, Seq<u8>>, k: Seq<u8>, v: Seq<u8>) -> Option<u64> {
    let n: int = if m.contains_key(k) {
        u - m[k].len() + v.len()
    } else {
        u + k.len() + v.len()
    };
    if m.contains_key(k) && u < m[k].len() {
        None
    } else if n > u64::MAX {
        None
    } else {
        Some(n as u64)
    }
}

/// Storage usage after removing `k`, or `None` when it would go below zero.
pub open spec fn usage_after_remove(u: u64, m: Map<Seq<u8>, Seq<u8>>, k: Seq<u8>) -> Option<u64> {
    if !m.contains_key(k) {
        Some(u)
    } else if u < k.len() + m[k].len() {
        None
    } else {
        Some((u - k.len() - m[k].len()) as u64)
    }
}

pub open spec fn storage_write_outcome(pre: HostView, mem: Seq<u8>, key: Source, value: Source, register_id: u64) -> Result<(u64, HostView), HostError> {
    match fetch_spec(mem, pre.registers, key) {
        Err(e) => Err(e),
        Ok(k) => match fetch_spec(mem, pre.registers, value) {
            Err(e) => Err(e),
            Ok(v) => match usage_after_write(pre.storage_usage, pre.storage, k, v) {
                None => Err(HostError::IntegerOverflow),
                Some(u) => Ok((
                    if pre.storage.contains_key(k) { 1u64 } else { 0u64 },
                    HostView {
                        storage: pre.storage.insert(k, v),
                        iterators: touch(pre.iterators, k),
                        registers: if pre.storage.contains_key(k) {
                            pre.registers.insert(register_id, pre.storage[k])
                        } else {
                            pre.registers
                        },
                        storage_usage: u,
                        ..pre
                    },
                )),
            },
        },
    }
}

pub open spec fn storage_read_outcome(pre: HostView, mem: Seq<u8>, key: Source, register_id: u64) -> Result<(u64, HostView), HostError> {
    match fetch_spec(mem, pre.registers, key) {
        Err(e) => Err(e),
        Ok(k) => if pre.storage.contains_key(k) {
            Ok((1u64, HostView { registers: pre.registers.insert(register_id, pre.storage[k]), ..pre }))
        } else {
            Ok((0u64, pre))
        },
    }
}

pub open spec fn storage_remove_outcome(pre: HostView, mem: Seq<u8>, key: Source, register_id: u64) -> Result<(u64, HostView), HostError> {
    match fetch_spec(mem, pre.registers, key) {
        Err(e) => Err(e),
        Ok(k) => match usage_after_remove(pre.storage_usage, pre.storage, k) {
            None => Err(HostError::IntegerOverflow),
            Some(u) => Ok((
                if pre.storage.contains_key(k) { 1u64 } else { 0u64 },
                HostView {
                    storage: pre.storage.remove(k),
                    iterators: touch(pre.iterators, k),
                    registers: if pre.storage.contains_key(k) {
                        pre.registers.insert(register_id, pre.storage[k])
                    } else {
                        pre.registers
                    },
                    storage_usage: u,
                    ..pre
                },
            )),
        },
    }
}

pub open spec fn storage_has_key_outcome(pre: HostView, mem: Seq<u8>, key: Source) -> Result<(u64, HostView), HostError> {
    match fetch_spec(mem, pre.registers, key) {
        Err(e) => Err(e),
        Ok(k) => Ok((if pre.storage.contains_key(k) { 1u64 } else { 0u64 }, pre)),
    }
}

pub open spec fn new_iter(bound: BoundView) -> Option<IterView> {
    Some(IterView { bound, cursor: CursorView::Start, invalidated: false })
}

pub open spec fn storage_iter_prefix_outcome(pre: HostView, mem: Seq<u8>, prefix: Source) -> Result<(u64, HostView), HostError> {
    match fetch_spec(mem, pre.registers, prefix) {
        Err(e) => Err(e),
        Ok(p) => Ok((
            pre.iterators.len() as u64,
            HostView { iterators: pre.iterators.push(new_iter(BoundView::Prefix(p))), ..pre },
        )),
    }
}

pub open spec fn storage_iter_range_outcome(pre: HostView, mem: Seq<u8>, start: Source, end: Source) -> Result<(u64, HostView), HostError> {
    match fetch_spec(mem, pre.registers, start) {
        Err(e) => Err(e),
        Ok(s) => match fetch_spec(mem, pre.registers, end) {
            Err(e) => Err(e),
            Ok(e) => Ok((
                pre.iterators.len() as u64,
                HostView { iterators: pre.iterators.push(new_iter(BoundView::Range(s, e))), ..pre },
            )),
        },
    }
}

/// The least key iterator `it` has yet to visit in `m`, when there is one.
pub open spec fn next_key(m: Map<Seq<u8>, Seq<u8>>, it: IterView) -> Option<Seq<u8>> {
    if exists|k: Seq<u8>| is_next_key(m, it, k) {
        Some(choose|k: Seq<u8>| is_next_key(m, it, k))
    } else {
        None
    }
}

pub open spec fn storage_iter_drop_outcome(pre: HostView, iterator_id: u64) -> Result<((), HostView), HostError> {
    if !is_live(pre.iterators, iterator_id) {
        Err(HostError::InvalidIteratorId)
    } else {
        Ok(((), HostView { iterators: pre.iterators.update(iterator_id as int, None), ..pre }))
    }
}

pub open spec fn storage_iter_next_outcome(pre: HostView, iterator_id: u64, key_register_id: u64, value_register_id: u64) -> Result<(u64, HostView), HostError> {
    if key_register_id == value_register_id {
        Err(HostError::MemoryAccessViolation)
    } else if !is_live(pre.iterators, iterator_id) {
        Err(HostError::InvalidIteratorId)
    } else {
        let it = pre.iterators[iterator_id as int]->Some_0;
        if it.invalidated {
            Err(HostError::IteratorWasInvalidated)
        } else {
            match next_key(pre.storage, it) {
                Some(k) => Ok((
                    1u64,
                    HostView {
                        iterators: pre.iterators.update(
                            iterator_id as int,
                            Some(IterView { cursor: CursorView::After(k), ..it }),
                        ),
                        registers: pre.registers.insert(key_register_id, k).insert(
                            value_register_id,
                            pre.storage[k],
                        ),
                        ..pre
                    },
                )),
                None => Ok((
                    0u64,
                    HostView {
                        iterators: pre.iterators.update(
                            iterator_id as int,
                            Some(IterView { cursor: CursorView::Done, ..it }),
                        ),
                        ..pre
                    },
                )),
            }
        }
    }
}

/// At most one stored key is the next one an iterator visits.
pub proof fn lemma_next_key_unique(m: Map<Seq<u8>, Seq<u8>>, it: IterView, k1: Seq<u8>, k2: Seq<u8>)
    requires
        is_next_key(m, it, k1),
        is_next_key(m, it, k2),
    ensures
        k1 == k2,
{
    crate::bytes::lemma_lex_asymmetric(k1, k2);
}

/// A successful `storage_write` of a key inside a live iterator's window
/// (within its bound, at or after its cursor) makes that iterator's next
/// advance fail with `IteratorWasInvalidated`.
pub proof fn law_write_invalidates(pre: HostView, mem: Seq<u8>, key: Source, value: Source, register_id: u64, h: u64, key_register_id: u64, value_register_id: u64)
    requires
        storage_write_outcome(pre, mem, key, value, register_id) is Ok,
        fetch_spec(mem, pre.registers, key) is Ok,
        is_live(pre.iterators, h),
        key_register_id != value_register_id,
        in_window(pre.iterators[h as int]->Some_0, fetch_spec(mem, pre.registers, key)->Ok_0),
    ensures
        storage_iter_next_outcome(storage_write_outcome(pre, mem, key, value, register_id)->Ok_0.1, h, key_register_id, value_register_id)
            == Err::<(u64, HostView), HostError>(HostError::IteratorWasInvalidated),
{
}

/// A successful `storage_remove` of a key inside a live iterator's window
/// (within its bound, at or after its cursor) makes that iterator's next
/// advance fail with `IteratorWasInvalidated`.
pub proof fn law_remove_invalidates(pre: HostView, mem: Seq<u8>, key: Source, register_id: u64, h: u64, key_register_id: u64, value_register_id: u64)
    requires
        storage_remove_outcome(pre, mem, key, register_id) is Ok,
        fetch_spec(mem, pre.registers, key) is Ok,
        is_live(pre.iterators, h),
        key_register_id != value_register_id,
        in_window(pre.iterators[h as int]->Some_0, fetch_spec(mem, pre.registers, key)->Ok_0),
    ensures
        storage_iter_next_outcome(storage_remove_outcome(pre, mem, key, register_id)->Ok_0.1, h, key_register_id, value_register_id)
            == Err::<(u64, HostView), HostError>(HostError::IteratorWasInvalidated),
{
}

/// The iterator after one advance with nothing in between: past the key it
/// returns, or exhausted.
pub open spec fn advance(m: Map<Seq<u8>, Seq<u8>>, it: IterView) -> IterView {
    IterView {
        cursor: match next_key(m, it) {
            Some(k) => CursorView::After(k),
            None => CursorView::Done,
        },
        ..it
    }
}

/// The iterator after `n` advances.
pub open spec fn advance_n(m: Map<Seq<u8>, Seq<u8>>, it: IterView, n: nat) -> IterView
    decreases n,
{
    if n == 0 {
        it
    } else {
        advance_n(m, advance(m, it), (n - 1) as nat)
    }
}

/// The keys that `n` successive advances return, up to exhaustion.
pub open spec fn walk(m: Map<Seq<u8>, Seq<u8>>, it: IterView, n: nat) -> Seq<Seq<u8>>
    decreases n,
{
    if n == 0 {
        Seq::empty()
    } else {
        match next_key(m, it) {
            None => Seq::empty(),
            Some(k) => seq![k] + walk(m, advance(m, it), (n - 1) as nat),
        }
    }
}

/// The keys come out in strictly ascending order, each once, all left to
/// visit, and every key left to visit comes out.
pub open spec fn lists_ascending(w: Seq<Seq<u8>>, r: Set<Seq<u8>>) -> bool {
    &&& w.len() == r.len()
    &&& forall|i: int| 0 <= i < w.len() ==> r.contains(#[trigger] w[i])
    &&& forall|k: Seq<u8>| #[trigger] r.contains(k) ==> w.contains(k)
    &&& forall|i: int, j: int| 0 <= i < j < w.len() ==> lex_lt(#[trigger] w[i], #[trigger] w[j])
}

/// With the store left alone, successive advances of an iterator visit
/// exactly the stored keys it has left, in strictly ascending byte order,
/// each once; after that it reports exhaustion.
pub proof fn law_walk_visits_remaining(m: Map<Seq<u8>, Seq<u8>>, it: IterView, n: nat)
    requires
        m.dom().finite(),
        n == remaining(m, it.bound, it.cursor).len(),
    ensures
        lists_ascending(walk(m, it, n), remaining(m, it.bound, it.cursor)),
        next_key(m, advance_n(m, it, n)) is None,
    decreases n,
{
    let r = remaining(m, it.bound, it.cursor);
    m.dom().lemma_len_filter(|k: Seq<u8>| in_bound_after(it, k));
    assert(r == m.dom().filter(|k: Seq<u8>| in_bound_after(it, k)));
    if n == 0 {
        r.lemma_len0_is_empty();
        if exists|k: Seq<u8>| is_next_key(m, it, k) {
            let k = choose|k: Seq<u8>| is_next_key(m, it, k);
            assert(r.contains(k));
        }
        assert(walk(m, it, n) =~= Seq::<Seq<u8>>::empty());
    } else {
        lemma_least_exists(r);
        let k0 = choose|k: Seq<u8>| r.contains(k) && forall|k2: Seq<u8>| #[trigger] r.contains(k2) ==> k2 == k || lex_lt(k, k2);
        assert forall|k2: Seq<u8>| #[trigger] m.contains_key(k2) && crate::storage::unconsumed(it, k2) implies k2 == k0 || lex_lt(k0, k2) by {
            assert(r.contains(k2));
        }
        assert(is_next_key(m, it, k0));
        let k = choose|k: Seq<u8>| is_next_key(m, it, k);
        law_iteration_step(m, it, k);
        let nx = advance(m, it);
        assert(remaining(m, nx.bound, nx.cursor) == r.remove(k));
        law_walk_visits_remaining(m, nx, (n - 1) as nat);
        let w = walk(m, it, n);
        let w2 = walk(m, nx, (n - 1) as nat);
        assert(w == seq![k] + w2);
        assert forall|i: int| 0 <= i < w.len() implies r.contains(#[trigger] w[i]) by {
            if i > 0 {
                assert(w[i] == w2[i - 1]);
            }
        }
        assert forall|k2: Seq<u8>| #[trigger] r.contains(k2) implies w.contains(k2) by {
            if k2 == k {
                assert(w[0] == k2);
            } else {
                assert(r.remove(k).contains(k2));
                let j = choose|j: int| 0 <= j < w2.len() && w2[j] == k2;
                assert(w[j + 1] == k2);
            }
        }
        assert forall|i: int, j: int| 0 <= i < j < w.len() implies lex_lt(#[trigger] w[i], #[trigger] w[j]) by {
            assert(w[j] == w2[j - 1]);
            assert(r.remove(k).contains(w2[j - 1]));
            if i > 0 {
                assert(w[i] == w2[i - 1]);
            }
        }
    }
}

/// `k` is within the iterator's bound and after its cursor.
pub open spec fn in_bound_after(it: IterView, k: Seq<u8>) -> bool {
    crate::storage::in_bound(it.bound, k) && crate::storage::after_cursor(it.cursor, k)
}

/// A fresh prefix iterator, advanced with the store left alone, visits
/// exactly the stored keys that start with `p`, in strictly ascending byte
/// order, each once, and then reports exhaustion.
pub proof fn law_prefix_iteration(m: Map<Seq<u8>, Seq<u8>>, p: Seq<u8>)
    requires
        m.dom().finite(),
    ensures
        ({
            let it = IterView { bound: BoundView::Prefix(p), cursor: CursorView::Start, invalidated: false };
            let keys = m.dom().filter(|k: Seq<u8>| has_prefix(k, p));
            lists_ascending(walk(m, it, keys.len()), keys) && next_key(m, advance_n(m, it, keys.len())) is None
        }),
{
    let it = IterView { bound: BoundView::Prefix(p), cursor: CursorView::Start, invalidated: false };
    law_prefix_start(m, p);
    law_walk_visits_remaining(m, it, remaining(m, it.bound, it.cursor).len());
}

/// A fresh range iterator, advanced with the store left alone, visits
/// exactly the stored keys `k` with `start <= k < end`, in strictly
/// ascending byte order, each once, and then reports exhaustion; when
/// `end <= start` it is exhausted at once.
pub proof fn law_range_iteration(m: Map<Seq<u8>, Seq<u8>>, start: Seq<u8>, end: Seq<u8>)
    requires
        m.dom().finite(),
    ensures
        ({
            let it = IterView { bound: BoundView::Range(start, end), cursor: CursorView::Start, invalidated: false };
            let keys = m.dom().filter(|k: Seq<u8>| !lex_lt(k, start) && lex_lt(k, end));
            lists_ascending(walk(m, it, keys.len()), keys) && next_key(m, advance_n(m, it, keys.len())) is None
        }),
        !lex_lt(start, end) ==> next_key(m, IterView { bound: BoundView::Range(start, end), cursor: CursorView::Start, invalidated: false }) is None,
{
    let it = IterView { bound: BoundView::Range(start, end), cursor: CursorView::Start, invalidated: false };
    law_range_start(m, start, end);
    law_walk_visits_remaining(m, it, remaining(m, it.bound, it.cursor).len());
    if !lex_lt(start, end) {
        assert(remaining(m, it.bound, it.cursor).len() == 0);
    }
}

impl VM {
    /// Stores the value under the key, both given by `(ptr, len)` sources;
    /// returns 1 and puts the displaced value into `register_id` when the
    /// key was present, else 0.
    pub fn storage_write(&mut self, key_len: u64, key_ptr: u64, value_len: u64, value_ptr: u64, register_id: u64) -> (r: Result<u64, HostError>)
        requires
            old(self).wf(),
        ensures
            final(self).wf(),
            final(self).context == old(self).context,
            final(self).memory == old(self).memory,
            saved_view(final(self).saved) == saved_view(old(self).saved),
            commits(
                storage_write_outcome(old(self).state@, old(self).memory@, raw_source(key_ptr, key_len), raw_source(value_ptr, value_len), register_id),
                r,
                old(self).state@,
                final(self).state@,
            ),
    {
        let key = self.fetch(Source::from_raw(key_ptr, key_len))?;
        let value = self.fetch(Source::from_raw(value_ptr, value_len))?;
        let usage = match self.state.storage.get(key.as_slice()) {
            Some(prev) => {
                let prev_len = prev.len() as u64;
                if self.state.storage_usage < prev_len {
                    return Err(HostError::IntegerOverflow);
                }
                match (self.state.storage_usage - prev_len).checked_add(value.len() as u64) {
                    Some(u) => u,
                    None => { return Err(HostError::IntegerOverflow); },
                }
            },
            None => {
                let with_key = match self.state.storage_usage.checked_add(key.len() as u64) {
                    Some(u) => u,
                    None => { return Err(HostError::IntegerOverflow); },
                };
                match with_key.checked_add(value.len() as u64) {
                    Some(u) => u,
                    None => { return Err(HostError::IntegerOverflow); },
                }
            },
        };
        let evicted = self.state.storage.set(key, value);
        self.state.storage_usage = usage;
        match evicted {
            Some(prev) => {
                self.state.registers.write(register_id, prev);
                Ok(1)
            },
            None => Ok(0),
        }
    }

    /// Puts the value stored under the key into `register_id` and returns 1,
    /// or returns 0 when the key is absent.
    pub fn storage_read(&mut self, key_len: u64, key_ptr: u64, register_id: u64) -> (r: Result<u64, HostError>)
        requires
            old(self).wf(),
        ensures
            final(self).wf(),
            final(self).context == old(self).context,
            final(self).memory == old(self).memory,
            saved_view(final(self).saved) == saved_view(old(self).saved),
            commits(
                storage_read_outcome(old(self).state@, old(self).memory@, raw_source(key_ptr, key_len), register_id),
                r,
                old(self).state@,
                final(self).state@,
            ),
    {
        let key = self.fetch(Source::from_raw(key_ptr, key_len))?;
        let found = match self.state.storage.get(key.as_slice()) {
            Some(v) => Some(copy_bytes(v.as_slice())),
            None => None,
        };
        match found {
            Some(v) => {
                self.state.registers.write(register_id, v);
                Ok(1)
            },
            None => Ok(0),
        }
    }

    /// Removes the key; returns 1 and puts the removed value into
    /// `register_id` when it was present, else 0.
    pub fn storage_remove(&mut self, key_len: u64, key_ptr: u64, register_id: u64) -> (r: Result<u64, HostError>)
        requires
            old(self).wf(),
        ensures
            final(self).wf(),
            final(self).context == old(self).context,
            final(self).memory == old(self).memory,
            saved_view(final(self).saved) == saved_view(old(self).saved),
            commits(
                storage_remove_outcome(old(self).state@, old(self).memory@, raw_source(key_ptr, key_len), register_id),
                r,
                old(self).state@,
                final(self).state@,
            ),
    {
        let key = self.fetch(Source::from_raw(key_ptr, key_len))?;
        let usage = match self.state.storage.get(key.as_slice()) {
            Some(prev) => {
                let gone = key.len() as u64;
                if self.state.storage_usage < gone || self.state.storage_usage - gone < prev.len() as u64 {
                    return Err(HostError::IntegerOverflow);
                }
                self.state.storage_usage - gone - prev.len() as u64
            },
            None => self.state.storage_usage,
        };
        let removed = self.state.storage.remove(key.as_slice());
        self.state.storage_usage = usage;
        match removed {
            Some(prev) => {
                self.state.registers.write(register_id, prev);
                Ok(1)
            },
            None => Ok(0),
        }
    }

    /// 1 when the key is stored, else 0.
    pub fn storage_has_key(&mut self, key_len: u64, key_ptr: u64) -> (r: Result<u64, HostError>)
        requires
            old(self).wf(),
        ensures
            final(self).wf(),
            final(self).context == old(self).context,
            final(self).memory == old(self).memory,
            saved_view(final(self).saved) == saved_view(old(self).saved),
            commits(
                storage_has_key_outcome(old(self).state@, old(self).memory@, raw_source(key_ptr, key_len)),
                r,
                old(self).state@,
                final(self).state@,
            ),
    {
        let key = self.fetch(Source::from_raw(key_ptr, key_len))?;
        if self.state.storage.has(key.as_slice()) {
            Ok(1)
        } else {
            Ok(0)
        }
    }

    /// Creates an iterator over the keys that start with the prefix; returns
    /// its handle.
    pub fn storage_iter_prefix(&mut self, prefix_len: u64, prefix_ptr: u64) -> (r: Result<u64, HostError>)
        requires
            old(self).wf(),
        ensures
            final(self).wf(),
            final(self).context == old(self).context,
            final(self).memory == old(self).memory,
            saved_view(final(self).saved) == saved_view(old(self).saved),
            commits(
                storage_iter_prefix_outcome(old(self).state@, old(self).memory@, raw_source(prefix_ptr, prefix_len)),
                r,
                old(self).state@,
                final(self).state@,
            ),
    {
        let prefix = self.fetch(Source::from_raw(prefix_ptr, prefix_len))?;
        Ok(self.state.storage.iter_prefix(prefix))
    }

    /// Creates an iterator over the keys `k` with `start <= k < end`;
    /// returns its handle.
    pub fn storage_iter_range(&mut self, start_len: u64, start_ptr: u64, end_len: u64, end_ptr: u64) -> (r: Result<u64, HostError>)
        requires
            old(self).wf(),
        ensures
            final(self).wf(),
            final(self).context == old(self).context,
            final(self).memory == old(self).memory,
            saved_view(final(self).saved) == saved_view(old(self).saved),
            commits(
                storage_iter_range_outcome(old(self).state@, old(self).memory@, raw_source(start_ptr, start_len), raw_source(end_ptr, end_len)),
                r,
                old(self).state@,
                final(self).state@,
            ),
    {
        let start = self.fetch(Source::from_raw(start_ptr, start_len))?;
        let end = self.fetch(Source::from_raw(end_ptr, end_len))?;
        Ok(self.state.storage.iter_range(start, end))
    }

    /// Advances iterator `iterator_id`: puts the next key and its value into
    /// the two registers and returns 1, or returns 0 when it is exhausted.
    /// The two registers must differ.
    pub fn storage_iter_next(&mut self, iterator_id: u64, key_register_id: u64, value_register_id: u64) -> (r: Result<u64, HostError>)
        requires
            old(self).wf(),
        ensures
            final(self).wf(),
            final(self).context == old(self).context,
            final(self).memory == old(self).memory,
            saved_view(final(self).saved) == saved_view(old(self).saved),
            commits(
                storage_iter_next_outcome(old(self).state@, iterator_id, key_register_id, value_register_id),
                r,
                old(self).state@,
                final(self).state@,
            ),
    {
        let ghost pre = self.state@;
        if key_register_id == value_register_id {
            return Err(HostError::MemoryAccessViolation);
        }
        match self.state.storage.iter_next(iterator_id) {
            Err(e) => Err(e),
            Ok(None) => {
                proof {
                    let it = pre.iterators[iterator_id as int]->Some_0;
                    if exists|k: Seq<u8>| is_next_key(pre.storage, it, k) {
                        let k = choose|k: Seq<u8>| is_next_key(pre.storage, it, k);
                        assert(pre.storage.contains_key(k));
                    }
                }
                Ok(0)
            },
            Ok(Some((key, value))) => {
                proof {
                    let it = pre.iterators[iterator_id as int]->Some_0;
                    let k = choose|k: Seq<u8>| is_next_key(pre.storage, it, k);
                    lemma_next_key_unique(pre.storage, it, k, key@);
                }
                self.state.registers.write(key_register_id, key);
                self.state.registers.write(value_register_id, value);
                Ok(1)
            },
        }
    }

    /// Releases iterator `iterator_id`; advancing or releasing it afterwards
    /// fails with `InvalidIteratorId`.
    pub fn storage_iter_drop(&mut self, iterator_id: u64) -> (r: Result<(), HostError>)
        requires
            old(self).wf(),
        ensures
            final(self).wf(),
            final(self).context == old(self).context,
            final(self).memory == old(self).memory,
            saved_view(final(self).saved) == saved_view(old(self).saved),
            commits(storage_iter_drop_outcome(old(self).state@, iterator_id), r, old(self).state@, final(self).state@),
    {
        let ghost pre = self.state@;
        match self.state.storage.iter_drop(iterator_id) {
            Ok(_) => {
                assert(self.state@ == (HostView { iterators: pre.iterators.update(iterator_id as int, None), ..pre }));
                Ok(())
            },
            Err(e) => Err(e),
        }
    }
}

} // verus!
