use vstd::prelude::*;
use crate::bytes::{bytes_eq, bytes_has_prefix, bytes_lt, copy_bytes, has_prefix, lex_lt};
use crate::bytes::{lemma_lex_asymmetric, lemma_lex_total, lemma_lex_transitive};
use crate::error::HostError;

verus! {

/// A stored key-value pair.
pub struct Entry {
    pub key: Vec<u8>,
    pub value: Vec<u8>,
}

/// The keys an iterator ranges over.
pub enum Bound {
    /// Every key that starts with the given bytes.
    Prefix(Vec<u8>),
    /// Every key `k` with `start <= k < end`.
    Range(Vec<u8>, Vec<u8>),
}

/// How far an iterator has gone.
pub enum Cursor {
    /// Nothing returned yet.
    Start,
    /// The key returned last.
    After(Vec<u8>),
    /// Exhausted.
    Done,
}

pub enum BoundView {
    Prefix(Seq<u8>),
    Range(Seq<u8>, Seq<u8>),
}

pub enum CursorView {
    Start,
    After(Seq<u8>),
    Done,
}

/// A live iterator: its bound, its cursor, and whether a mutation inside its
/// window has happened since it was created.
pub struct IterView {
    pub bound: BoundView,
    pub cursor: CursorView,
    pub invalidated: bool,
}

impl Bound {
    pub open spec fn view(&self) -> BoundView {
        match self {
            Bound::Prefix(p) => BoundView::Prefix(p@),
            Bound::Range(s, e) => BoundView::Range(s@, e@),
        }
    }
}

impl Cursor {
    pub open spec fn view(&self) -> CursorView {
        match self {
            Cursor::Start => CursorView::Start,
            Cursor::After(k) => CursorView::After(k@),
            Cursor::Done => CursorView::Done,
        }
    }
}

/// `k` lies within bound `b`.
pub open spec fn in_bound(b: BoundView, k: Seq<u8>) -> bool {
    match b {
        BoundView::Prefix(p) => has_prefix(k, p),
        BoundView::Range(s, e) => !lex_lt(k, s) && lex_lt(k, e),
    }
}

/// `k` lies after cursor `c`, among the keys not yet consumed.
pub open spec fn after_cursor(c: CursorView, k: Seq<u8>) -> bool {
    match c {
        CursorView::Start => true,
        CursorView::After(last) => lex_lt(last, k),
        CursorView::Done => false,
    }
}

/// `k` lies in the still-unconsumed part of iterator `it`'s bound.
pub open spec fn unconsumed(it: IterView, k: Seq<u8>) -> bool {
    in_bound(it.bound, k) && after_cursor(it.cursor, k)
}

/// The stored keys an iterator with bound `b` and cursor `c` has yet to visit.
pub open spec fn remaining(m: Map<Seq<u8>, Seq<u8>>, b: BoundView, c: CursorView) -> Set<Seq<u8>> {
    m.dom().filter(|k: Seq<u8>| in_bound(b, k) && after_cursor(c, k))
}

/// `k` is the least stored key that `it` has yet to visit.
pub open spec fn is_next_key(m: Map<Seq<u8>, Seq<u8>>, it: IterView, k: Seq<u8>) -> bool {
    &&& m.contains_key(k)
    &&& unconsumed(it, k)
    &&& forall|k2: Seq<u8>| #[trigger] m.contains_key(k2) && unconsumed(it, k2) ==> k2 == k || lex_lt(k, k2)
}

/// `it` has no stored key left to visit.
pub open spec fn is_exhausted(m: Map<Seq<u8>, Seq<u8>>, it: IterView) -> bool {
    forall|k2: Seq<u8>| #[trigger] m.contains_key(k2) ==> !unconsumed(it, k2)
}

/// `k` lies in iterator `it`'s window: within its bound and at or after its
/// cursor, the key it returned last included. A mutation of such a key
/// invalidates the iterator; an exhausted iterator has an empty window.
pub open spec fn in_window(it: IterView, k: Seq<u8>) -> bool {
    in_bound(it.bound, k) && match it.cursor {
        CursorView::Start => true,
        CursorView::After(last) => last == k || lex_lt(last, k),
        CursorView::Done => false,
    }
}

/// The iterators after a `set` or `remove` of key `k`: each one whose
/// window holds `k` becomes invalidated.
pub open spec fn touch(iters: Seq<Option<IterView>>, k: Seq<u8>) -> Seq<Option<IterView>> {
    Seq::new(
        iters.len(),
        |i: int|
            match iters[i] {
                Some(it) => Some(
                    IterView {
                        bound: it.bound,
                        cursor: it.cursor,
                        invalidated: it.invalidated || in_window(it, k),
                    },
                ),
                None => None,
            },
    )
}

/// Keys are unique and `entries` hold exactly the pairs of `m`.
pub open spec fn entries_wf(entries: Seq<Entry>, m: Map<Seq<u8>, Seq<u8>>) -> bool {
    &&& forall|i: int, j: int| 0 <= i < j < entries.len() ==> entries[i].key@ != entries[j].key@
    &&& forall|i: int|
        0 <= i < entries.len() ==> #[trigger] m.contains_key(entries[i].key@) && m[entries[i].key@]
            == entries[i].value@
    &&& forall|k: Seq<u8>|
        #[trigger] m.contains_key(k) ==> exists|i: int| 0 <= i < entries.len() && entries[i].key@ == k
}

/// The key-value store together with its pool of iterators. An iterator's
/// handle is its position in `bounds`, `cursors` and `invalid`; a dropped one
/// leaves `None` in `bounds`.
pub struct Storage {
    pub entries: Vec<Entry>,
    pub model: Ghost<Map<Seq<u8>, Seq<u8>>>,
    pub bounds: Vec<Option<Bound>>,
    pub cursors: Vec<Cursor>,
    pub invalid: Vec<bool>,
}

impl Storage {
    /// The stored key-value pairs.
    pub open spec fn view(&self) -> Map<Seq<u8>, Seq<u8>> {
        self.model@
    }

    /// The iterators, by handle.
    pub open spec fn iter_views(&self) -> Seq<Option<IterView>> {
        Seq::new(
            self.bounds@.len(),
            |i: int|
                match self.bounds@[i] {
                    Some(b) => Some(
                        IterView { bound: b@, cursor: self.cursors@[i]@, invalidated: self.invalid@[i] },
                    ),
                    None => None,
                },
        )
    }

    /// Keys are unique and the entries hold exactly the model.
    pub open spec fn wf(&self) -> bool {
        &&& self.cursors@.len() == self.bounds@.len()
        &&& self.invalid@.len() == self.bounds@.len()
        &&& entries_wf(self.entries@, self.model@)
    }

    pub fn new() -> (r: Storage)
        ensures
            r.wf(),
            r@ == Map::<Seq<u8>, Seq<u8>>::empty(),
            r.iter_views() == Seq::<Option<IterView>>::empty(),
    {
        let r = Storage {
            entries: Vec::new(),
            model: Ghost(Map::empty()),
            bounds: Vec::new(),
            cursors: Vec::new(),
            invalid: Vec::new(),
        };
        assert(r.iter_views() =~= Seq::<Option<IterView>>::empty());
        r
    }

    /// Position of `key` among the entries, if stored.
    fn find(&self, key: &[u8]) -> (r: Option<usize>)
        requires
            self.wf(),
        ensures
            r matches Some(i) ==> i < self.entries@.len() && self.entries@[i as int].key@ == key@,
            r is None ==> !self@.contains_key(key@),
    {
        let mut i: usize = 0;
        while i < self.entries.len()
            invariant
                i <= self.entries@.len(),
                forall|j: int| 0 <= j < i ==> self.entries@[j].key@ != key@,
            decreases self.entries@.len() - i,
        {
            if bytes_eq(self.entries[i].key.as_slice(), key) {
                return Some(i);
            }
            i = i + 1;
        }
        None
    }

    /// The value stored under `key`.
    pub fn get(&self, key: &[u8]) -> (r: Option<&Vec<u8>>)
        requires
            self.wf(),
        ensures
            self@.contains_key(key@) ==> (r matches Some(v) && v@ == self@[key@]),
            !self@.contains_key(key@) ==> r is None,
    {
        match self.find(key) {
            Some(i) => Some(&self.entries[i].value),
            None => None,
        }
    }

    /// Whether `key` is stored.
    pub fn has(&self, key: &[u8]) -> (r: bool)
        requires
            self.wf(),
        ensures
            r == self@.contains_key(key@),
    {
        match self.find(key) {
            Some(_) => true,
            None => false,
        }
    }
}

/// Whether `k` lies in the unconsumed part of an iterator with bound `b` and
/// cursor `c`.
fn admits(b: &Bound, c: &Cursor, k: &[u8]) -> (r: bool)
    ensures
        r == (in_bound(b@, k@) && after_cursor(c@, k@)),
{
    let inside = match b {
        Bound::Prefix(p) => bytes_has_prefix(k, p.as_slice()),
        Bound::Range(start, end) => !bytes_lt(k, start.as_slice()) && bytes_lt(k, end.as_slice()),
    };
    if !inside {
        return false;
    }
    match c {
        Cursor::Start => true,
        Cursor::After(last) => bytes_lt(last.as_slice(), k),
        Cursor::Done => false,
    }
}

/// Whether `k` lies in the window of an iterator with bound `b` and cursor `c`.
fn window_holds(b: &Bound, c: &Cursor, k: &[u8]) -> (r: bool)
    ensures
        r == in_window(IterView { bound: b@, cursor: c@, invalidated: false }, k@),
{
    let inside = match b {
        Bound::Prefix(p) => bytes_has_prefix(k, p.as_slice()),
        Bound::Range(start, end) => !bytes_lt(k, start.as_slice()) && bytes_lt(k, end.as_slice()),
    };
    if !inside {
        return false;
    }
    match c {
        Cursor::Start => true,
        Cursor::After(last) => bytes_eq(last.as_slice(), k) || bytes_lt(last.as_slice(), k),
        Cursor::Done => false,
    }
}

impl Storage {
    /// Marks invalidated every live iterator whose window holds `key`.
    fn invalidate_for(&mut self, key: &[u8])
        requires
            old(self).wf(),
        ensures
            final(self).wf(),
            final(self)@ == old(self)@,
            final(self).entries@ == old(self).entries@,
            final(self).iter_views() == touch(old(self).iter_views(), key@),
    {
        let ghost old_views = self.iter_views();
        let mut i: usize = 0;
        while i < self.bounds.len()
            invariant
                self.wf(),
                self@ == old(self)@,
                self.entries@ == old(self).entries@,
                self.bounds@ == old(self).bounds@,
                self.cursors@ == old(self).cursors@,
                old_views == old(self).iter_views(),
                i <= self.bounds@.len(),
                forall|j: int|
                    0 <= j < self.bounds@.len() ==> #[trigger] self.iter_views()[j] == (if j < i {
                        touch(old_views, key@)[j]
                    } else {
                        old_views[j]
                    }),
            decreases self.bounds@.len() - i,
        {
            let hit = match &self.bounds[i] {
                Some(b) => window_holds(b, &self.cursors[i], key),
                None => false,
            };
            let ghost before = self.iter_views();
            if hit {
                self.invalid.set(i, true);
            }
            assert(self.iter_views()[i as int] == touch(old_views, key@)[i as int]);
            assert forall|j: int| 0 <= j < self.bounds@.len() implies #[trigger] self.iter_views()[j] == (if j < i + 1 {
                touch(old_views, key@)[j]
            } else {
                old_views[j]
            }) by {
                if j != i {
                    assert(self.iter_views()[j] == before[j]);
                }
            }
            i = i + 1;
        }
        assert(self.iter_views() =~= touch(old_views, key@));
    }

    /// Stores `value` under `key`; returns the value it displaced.
    pub fn set(&mut self, key: Vec<u8>, value: Vec<u8>) -> (r: Option<Vec<u8>>)
        requires
            old(self).wf(),
        ensures
            final(self).wf(),
            final(self)@ == old(self)@.insert(key@, value@),
            old(self)@.contains_key(key@) ==> (r matches Some(v) && v@ == old(self)@[key@]),
            !old(self)@.contains_key(key@) ==> r is None,
            final(self).iter_views() == touch(old(self).iter_views(), key@),
    {
        self.invalidate_for(key.as_slice());
        let ghost k = key@;
        let ghost v = value@;
        let ghost old_entries = self.entries@;
        let ghost old_model = self.model@;
        let ghost views = self.iter_views();
        match self.find(key.as_slice()) {
            Some(i) => {
                let prev = copy_bytes(self.entries[i].value.as_slice());
                self.entries.set(i, Entry { key, value });
                self.model = Ghost(self.model@.insert(k, v));
                assert forall|j: int| 0 <= j < self.entries@.len() implies #[trigger] self.model@.contains_key(
                    self.entries@[j].key@,
                ) && self.model@[self.entries@[j].key@] == self.entries@[j].value@ by {
                    if j != i {
                        assert(old_model.contains_key(old_entries[j].key@));
                    }
                }
                assert forall|k2: Seq<u8>| #[trigger] self.model@.contains_key(k2) implies exists|j: int|
                    0 <= j < self.entries@.len() && self.entries@[j].key@ == k2 by {
                    if k2 == k {
                        assert(self.entries@[i as int].key@ == k2);
                    } else {
                        assert(old_model.contains_key(k2));
                        let j = choose|j: int| 0 <= j < old_entries.len() && old_entries[j].key@ == k2;
                        assert(self.entries@[j].key@ == k2);
                    }
                }
                assert(self.iter_views() =~= views);
                Some(prev)
            },
            None => {
                assert forall|j: int| 0 <= j < old_entries.len() implies old_entries[j].key@ != k by {
                    assert(old_model.contains_key(old_entries[j].key@));
                }
                self.entries.push(Entry { key, value });
                self.model = Ghost(self.model@.insert(k, v));
                assert forall|j: int| 0 <= j < self.entries@.len() implies #[trigger] self.model@.contains_key(
                    self.entries@[j].key@,
                ) && self.model@[self.entries@[j].key@] == self.entries@[j].value@ by {
                    if j < old_entries.len() {
                        assert(self.entries@[j] == old_entries[j]);
                        assert(old_model.contains_key(old_entries[j].key@));
                    }
                }
                assert forall|k2: Seq<u8>| #[trigger] self.model@.contains_key(k2) implies exists|j: int|
                    0 <= j < self.entries@.len() && self.entries@[j].key@ == k2 by {
                    if k2 == k {
                        assert(self.entries@[self.entries@.len() - 1].key@ == k2);
                    } else {
                        assert(old_model.contains_key(k2));
                        let j = choose|j: int| 0 <= j < old_entries.len() && old_entries[j].key@ == k2;
                        assert(self.entries@[j].key@ == k2);
                    }
                }
                assert(self.iter_views() =~= views);
                None
            },
        }
    }

    /// Removes `key`; returns the value it held.
    pub fn remove(&mut self, key: &[u8]) -> (r: Option<Vec<u8>>)
        requires
            old(self).wf(),
        ensures
            final(self).wf(),
            final(self)@ == old(self)@.remove(key@),
            old(self)@.contains_key(key@) ==> (r matches Some(v) && v@ == old(self)@[key@]),
            !old(self)@.contains_key(key@) ==> r is None,
            final(self).iter_views() == touch(old(self).iter_views(), key@),
    {
        self.invalidate_for(key);
        let ghost k = key@;
        let ghost old_entries = self.entries@;
        let ghost old_model = self.model@;
        let ghost views = self.iter_views();
        match self.find(key) {
            Some(i) => {
                let e = self.entries.remove(i);
                self.model = Ghost(self.model@.remove(k));
                assert forall|j: int| 0 <= j < self.entries@.len() implies #[trigger] self.model@.contains_key(
                    self.entries@[j].key@,
                ) && self.model@[self.entries@[j].key@] == self.entries@[j].value@ by {
                    let oj = if j < i { j } else { j + 1 };
                    assert(self.entries@[j] == old_entries[oj]);
                    assert(old_model.contains_key(old_entries[oj].key@));
                }
                assert forall|k2: Seq<u8>| #[trigger] self.model@.contains_key(k2) implies exists|j: int|
                    0 <= j < self.entries@.len() && self.entries@[j].key@ == k2 by {
                    assert(old_model.contains_key(k2));
                    let j = choose|j: int| 0 <= j < old_entries.len() && old_entries[j].key@ == k2;
                    assert(j != i);
                    if j < i {
                        assert(self.entries@[j].key@ == k2);
                    } else {
                        assert(self.entries@[j - 1].key@ == k2);
                    }
                }
                assert(self.iter_views() =~= views);
                Some(e.value)
            },
            None => {
                assert(self.model@.remove(k) =~= self.model@);
                None
            },
        }
    }
}

/// Handle `h` names a live iterator.
pub open spec fn is_live(views: Seq<Option<IterView>>, h: u64) -> bool {
    h < views.len() && views[h as int] is Some
}

fn copy_bound(b: &Bound) -> (r: Bound)
    ensures
        r@ == b@,
{
    match b {
        Bound::Prefix(p) => Bound::Prefix(copy_bytes(p.as_slice())),
        Bound::Range(s, e) => Bound::Range(copy_bytes(s.as_slice()), copy_bytes(e.as_slice())),
    }
}

fn copy_cursor(c: &Cursor) -> (r: Cursor)
    ensures
        r@ == c@,
{
    match c {
        Cursor::Start => Cursor::Start,
        Cursor::After(k) => Cursor::After(copy_bytes(k.as_slice())),
        Cursor::Done => Cursor::Done,
    }
}

impl Storage {
    fn add_iter(&mut self, bound: Bound) -> (r: u64)
        requires
            old(self).wf(),
        ensures
            final(self).wf(),
            final(self)@ == old(self)@,
            r == old(self).iter_views().len(),
            final(self).iter_views() == old(self).iter_views().push(
                Some(IterView { bound: bound@, cursor: CursorView::Start, invalidated: false }),
            ),
    {
        let ghost views = self.iter_views();
        let h = self.bounds.len() as u64;
        self.bounds.push(Some(bound));
        self.cursors.push(Cursor::Start);
        self.invalid.push(false);
        assert(self.iter_views() =~= views.push(
            Some(IterView { bound: bound@, cursor: CursorView::Start, invalidated: false }),
        ));
        h
    }

    /// Creates an iterator over every key that starts with `prefix`.
    pub fn iter_prefix(&mut self, prefix: Vec<u8>) -> (r: u64)
        requires
            old(self).wf(),
        ensures
            final(self).wf(),
            final(self)@ == old(self)@,
            r == old(self).iter_views().len(),
            final(self).iter_views() == old(self).iter_views().push(
                Some(
                    IterView {
                        bound: BoundView::Prefix(prefix@),
                        cursor: CursorView::Start,
                        invalidated: false,
                    },
                ),
            ),
    {
        self.add_iter(Bound::Prefix(prefix))
    }

    /// Creates an iterator over every key `k` with `start <= k < end`.
    pub fn iter_range(&mut self, start: Vec<u8>, end: Vec<u8>) -> (r: u64)
        requires
            old(self).wf(),
        ensures
            final(self).wf(),
            final(self)@ == old(self)@,
            r == old(self).iter_views().len(),
            final(self).iter_views() == old(self).iter_views().push(
                Some(
                    IterView {
                        bound: BoundView::Range(start@, end@),
                        cursor: CursorView::Start,
                        invalidated: false,
                    },
                ),
            ),
    {
        self.add_iter(Bound::Range(start, end))
    }

    /// Position of the least stored key that iterator `h` has yet to visit.
    fn least_unconsumed(&self, h: usize) -> (r: Option<usize>)
        requires
            self.wf(),
            h < self.bounds@.len(),
            self.bounds@[h as int] is Some,
        ensures
            r matches Some(i) ==> i < self.entries@.len() && is_next_key(
                self@,
                self.iter_views()[h as int]->Some_0,
                self.entries@[i as int].key@,
            ),
            r is None ==> is_exhausted(self@, self.iter_views()[h as int]->Some_0),
    {
        let ghost it = self.iter_views()[h as int]->Some_0;
        let b = match &self.bounds[h] {
            Some(b) => b,
            None => { return None; },
        };
        let c = &self.cursors[h];
        let mut best: Option<usize> = None;
        let mut i: usize = 0;
        while i < self.entries.len()
            invariant
                self.wf(),
                h < self.bounds@.len(),
                it == self.iter_views()[h as int]->Some_0,
                b@ == it.bound,
                c@ == it.cursor,
                i <= self.entries@.len(),
                best matches Some(bi) ==> bi < i && unconsumed(it, self.entries@[bi as int].key@)
                    && forall|j: int|
                    0 <= j < i && #[trigger] unconsumed(it, self.entries@[j].key@) ==> self.entries@[j].key@
                        == self.entries@[bi as int].key@ || lex_lt(
                        self.entries@[bi as int].key@,
                        self.entries@[j].key@,
                    ),
                best is None ==> forall|j: int| 0 <= j < i ==> !#[trigger] unconsumed(it, self.entries@[j].key@),
            decreases self.entries@.len() - i,
        {
            let key_i = self.entries[i].key.as_slice();
            if admits(b, c, key_i) {
                match best {
                    None => {
                        best = Some(i);
                    },
                    Some(bi) => {
                        let ghost kb = self.entries@[bi as int].key@;
                        if bytes_lt(key_i, self.entries[bi].key.as_slice()) {
                            assert forall|j: int|
                                0 <= j < i + 1 && #[trigger] unconsumed(it, self.entries@[j].key@) implies self.entries@[j].key@
                                == key_i@ || lex_lt(key_i@, self.entries@[j].key@) by {
                                if j < i && self.entries@[j].key@ != kb {
                                    lemma_lex_transitive(key_i@, kb, self.entries@[j].key@);
                                }
                            }
                            best = Some(i);
                        } else {
                            proof {
                                lemma_lex_total(key_i@, kb);
                            }
                        }
                    },
                }
            }
            i = i + 1;
        }
        match best {
            Some(bi) => {
                assert forall|k2: Seq<u8>| #[trigger] self@.contains_key(k2) && unconsumed(it, k2) implies k2
                    == self.entries@[bi as int].key@ || lex_lt(self.entries@[bi as int].key@, k2) by {
                    let j = choose|j: int| 0 <= j < self.entries@.len() && self.entries@[j].key@ == k2;
                    assert(unconsumed(it, self.entries@[j].key@));
                }
                assert(self@.contains_key(self.entries@[bi as int].key@));
            },
            None => {
                assert forall|k2: Seq<u8>| #[trigger] self@.contains_key(k2) implies !unconsumed(it, k2) by {
                    let j = choose|j: int| 0 <= j < self.entries@.len() && self.entries@[j].key@ == k2;
                    assert(!unconsumed(it, self.entries@[j].key@));
                }
            },
        }
        best
    }

    /// Advances iterator `h`: returns the least stored key after its cursor
    /// and within its bound, with its value, or `None` when there is none.
    pub fn iter_next(&mut self, h: u64) -> (r: Result<Option<(Vec<u8>, Vec<u8>)>, HostError>)
        requires
            old(self).wf(),
        ensures
            final(self).wf(),
            final(self)@ == old(self)@,
            !is_live(old(self).iter_views(), h) ==> r == Err::<Option<(Vec<u8>, Vec<u8>)>, HostError>(
                HostError::InvalidIteratorId,
            ),
            is_live(old(self).iter_views(), h) && old(self).iter_views()[h as int]->Some_0.invalidated
                ==> r == Err::<Option<(Vec<u8>, Vec<u8>)>, HostError>(
                HostError::IteratorWasInvalidated,
            ),
            r is Err ==> final(self).iter_views() == old(self).iter_views(),
            is_live(old(self).iter_views(), h) && !old(self).iter_views()[h as int]->Some_0.invalidated
                ==> r is Ok,
            r matches Ok(Some(p)) ==> is_next_key(old(self)@, old(self).iter_views()[h as int]->Some_0, p.0@)
                && p.1@ == old(self)@[p.0@] && final(self).iter_views() == old(self).iter_views().update(
                h as int,
                Some(
                    IterView {
                        bound: old(self).iter_views()[h as int]->Some_0.bound,
                        cursor: CursorView::After(p.0@),
                        invalidated: false,
                    },
                ),
            ),
            r matches Ok(None) ==> is_exhausted(old(self)@, old(self).iter_views()[h as int]->Some_0)
                && final(self).iter_views() == old(self).iter_views().update(
                h as int,
                Some(
                    IterView {
                        bound: old(self).iter_views()[h as int]->Some_0.bound,
                        cursor: CursorView::Done,
                        invalidated: false,
                    },
                ),
            ),
    {
        let ghost views = self.iter_views();
        if h >= self.bounds.len() as u64 {
            return Err(HostError::InvalidIteratorId);
        }
        let hu = h as usize;
        match &self.bounds[hu] {
            None => {
                return Err(HostError::InvalidIteratorId);
            },
            Some(_) => {},
        }
        if self.invalid[hu] {
            return Err(HostError::IteratorWasInvalidated);
        }
        match self.least_unconsumed(hu) {
            Some(i) => {
                let key = copy_bytes(self.entries[i].key.as_slice());
                let value = copy_bytes(self.entries[i].value.as_slice());
                assert(self@.contains_key(self.entries@[i as int].key@));
                self.cursors.set(hu, Cursor::After(copy_bytes(key.as_slice())));
                assert(self.iter_views() =~= views.update(
                    h as int,
                    Some(
                        IterView {
                            bound: views[h as int]->Some_0.bound,
                            cursor: CursorView::After(key@),
                            invalidated: false,
                        },
                    ),
                ));
                Ok(Some((key, value)))
            },
            None => {
                self.cursors.set(hu, Cursor::Done);
                assert(self.iter_views() =~= views.update(
                    h as int,
                    Some(
                        IterView {
                            bound: views[h as int]->Some_0.bound,
                            cursor: CursorView::Done,
                            invalidated: false,
                        },
                    ),
                ));
                Ok(None)
            },
        }
    }

    /// Releases iterator `h`.
    pub fn iter_drop(&mut self, h: u64) -> (r: Result<(), HostError>)
        requires
            old(self).wf(),
        ensures
            final(self).wf(),
            final(self)@ == old(self)@,
            is_live(old(self).iter_views(), h) ==> r is Ok && final(self).iter_views() == old(
                self,
            ).iter_views().update(h as int, None),
            !is_live(old(self).iter_views(), h) ==> r == Err::<(), HostError>(HostError::InvalidIteratorId)
                && final(self).iter_views() == old(self).iter_views(),
    {
        let ghost views = self.iter_views();
        if h >= self.bounds.len() as u64 {
            return Err(HostError::InvalidIteratorId);
        }
        let hu = h as usize;
        let live = match &self.bounds[hu] {
            None => false,
            Some(_) => true,
        };
        if !live {
            return Err(HostError::InvalidIteratorId);
        }
        self.bounds.set(hu, None);
        assert(self.iter_views() =~= views.update(h as int, None));
        Ok(())
    }

    /// An independent copy with the same pairs and iterators.
    pub fn copy(&self) -> (r: Storage)
        requires
            self.wf(),
        ensures
            r.wf(),
            r@ == self@,
            r.iter_views() == self.iter_views(),
    {
        let mut entries: Vec<Entry> = Vec::with_capacity(self.entries.len());
        let mut i: usize = 0;
        while i < self.entries.len()
            invariant
                i <= self.entries@.len(),
                entries@.len() == i,
                forall|j: int|
                    0 <= j < i ==> (#[trigger] entries@[j]).key@ == self.entries@[j].key@
                        && entries@[j].value@ == self.entries@[j].value@,
            decreases self.entries@.len() - i,
        {
            entries.push(
                Entry {
                    key: copy_bytes(self.entries[i].key.as_slice()),
                    value: copy_bytes(self.entries[i].value.as_slice()),
                },
            );
            i = i + 1;
        }
        let mut bounds: Vec<Option<Bound>> = Vec::with_capacity(self.bounds.len());
        let mut cursors: Vec<Cursor> = Vec::with_capacity(self.bounds.len());
        let mut invalid: Vec<bool> = Vec::with_capacity(self.bounds.len());
        let mut j: usize = 0;
        while j < self.bounds.len()
            invariant
                self.wf(),
                j <= self.bounds@.len(),
                bounds@.len() == j,
                cursors@.len() == j,
                invalid@.len() == j,
                forall|t: int|
                    0 <= t < j ==> match (#[trigger] bounds@[t], self.bounds@[t]) {
                        (Some(x), Some(y)) => x@ == y@,
                        (None, None) => true,
                        _ => false,
                    },
                forall|t: int| 0 <= t < j ==> (#[trigger] cursors@[t])@ == self.cursors@[t]@,
                forall|t: int| 0 <= t < j ==> #[trigger] invalid@[t] == self.invalid@[t],
            decreases self.bounds@.len() - j,
        {
            let b = match &self.bounds[j] {
                Some(b) => Some(copy_bound(b)),
                None => None,
            };
            bounds.push(b);
            cursors.push(copy_cursor(&self.cursors[j]));
            invalid.push(self.invalid[j]);
            j = j + 1;
        }
        let r = Storage { entries, model: Ghost(self.model@), bounds, cursors, invalid };
        assert forall|k2: Seq<u8>| #[trigger] r.model@.contains_key(k2) implies exists|t: int|
            0 <= t < r.entries@.len() && r.entries@[t].key@ == k2 by {
            let t = choose|t: int| 0 <= t < self.entries@.len() && self.entries@[t].key@ == k2;
            assert(r.entries@[t].key@ == k2);
        }
        assert forall|a: int, b: int| 0 <= a < b < r.entries@.len() implies r.entries@[a].key@
            != r.entries@[b].key@ by {
            assert(r.entries@[a].key@ == self.entries@[a].key@);
            assert(r.entries@[b].key@ == self.entries@[b].key@);
        }
        assert forall|a: int| 0 <= a < r.entries@.len() implies #[trigger] r.model@.contains_key(
            r.entries@[a].key@,
        ) && r.model@[r.entries@[a].key@] == r.entries@[a].value@ by {
            assert(r.entries@[a].key@ == self.entries@[a].key@);
            assert(self.model@.contains_key(self.entries@[a].key@));
        }
        assert(r.iter_views() =~= self.iter_views());
        r
    }
}

/// A mutation of the store, as seen by its model.
pub enum WriteOp {
    Insert(Seq<u8>, Seq<u8>),
    Remove(Seq<u8>),
}

/// The key a write touches.
pub open spec fn op_key(op: WriteOp) -> Seq<u8> {
    match op {
        WriteOp::Insert(k, _) => k,
        WriteOp::Remove(k) => k,
    }
}

/// The store after one write, as `set` and `remove` state it.
pub open spec fn apply_op(m: Map<Seq<u8>, Seq<u8>>, op: WriteOp) -> Map<Seq<u8>, Seq<u8>> {
    match op {
        WriteOp::Insert(k, v) => m.insert(k, v),
        WriteOp::Remove(k) => m.remove(k),
    }
}

/// The store after a sequence of writes, in order.
pub open spec fn apply_ops(m: Map<Seq<u8>, Seq<u8>>, ops: Seq<WriteOp>) -> Map<Seq<u8>, Seq<u8>>
    decreases ops.len(),
{
    if ops.len() == 0 {
        m
    } else {
        apply_op(apply_ops(m, ops.drop_last()), ops.last())
    }
}

/// What reading `k` returns from store `m`.
pub open spec fn lookup(m: Map<Seq<u8>, Seq<u8>>, k: Seq<u8>) -> Option<Seq<u8>> {
    if m.contains_key(k) {
        Some(m[k])
    } else {
        None
    }
}

/// What reading `k` returns after `ops`: the value of the latest write that
/// touched `k`, absent when that write was a removal, and the starting value
/// when none touched it.
pub open spec fn latest_for(m: Map<Seq<u8>, Seq<u8>>, ops: Seq<WriteOp>, k: Seq<u8>) -> Option<Seq<u8>>
    decreases ops.len(),
{
    if ops.len() == 0 {
        lookup(m, k)
    } else if op_key(ops.last()) == k {
        match ops.last() {
            WriteOp::Insert(_, v) => Some(v),
            WriteOp::Remove(_) => None,
        }
    } else {
        latest_for(m, ops.drop_last(), k)
    }
}

/// For every sequence of writes, reading a key returns what the most recent
/// write touching that key left there.
pub proof fn law_latest_write_wins(m: Map<Seq<u8>, Seq<u8>>, ops: Seq<WriteOp>, k: Seq<u8>)
    ensures
        lookup(apply_ops(m, ops), k) == latest_for(m, ops, k),
    decreases ops.len(),
{
    if ops.len() > 0 {
        law_latest_write_wins(m, ops.drop_last(), k);
    }
}

/// A prefix iterator starts out with exactly the stored keys that carry the
/// prefix left to visit.
pub proof fn law_prefix_start(m: Map<Seq<u8>, Seq<u8>>, p: Seq<u8>)
    ensures
        remaining(m, BoundView::Prefix(p), CursorView::Start) == m.dom().filter(
            |k: Seq<u8>| has_prefix(k, p),
        ),
{
    assert(remaining(m, BoundView::Prefix(p), CursorView::Start) =~= m.dom().filter(
        |k: Seq<u8>| has_prefix(k, p),
    ));
}

/// A range iterator starts out with exactly the stored keys `k` with
/// `start <= k < end` left to visit, which is none when `end <= start`.
pub proof fn law_range_start(m: Map<Seq<u8>, Seq<u8>>, start: Seq<u8>, end: Seq<u8>)
    ensures
        remaining(m, BoundView::Range(start, end), CursorView::Start) == m.dom().filter(
            |k: Seq<u8>| !lex_lt(k, start) && lex_lt(k, end),
        ),
        !lex_lt(start, end) ==> remaining(m, BoundView::Range(start, end), CursorView::Start).is_empty(),
{
    assert(remaining(m, BoundView::Range(start, end), CursorView::Start) =~= m.dom().filter(
        |k: Seq<u8>| !lex_lt(k, start) && lex_lt(k, end),
    ));
    if !lex_lt(start, end) {
        assert forall|k: Seq<u8>| !(!lex_lt(k, start) && lex_lt(k, end)) by {
            lemma_lex_total(start, end);
            if !lex_lt(k, start) && lex_lt(k, end) {
                if start != end {
                    lemma_lex_transitive(k, end, start);
                }
            }
        }
        assert(remaining(m, BoundView::Range(start, end), CursorView::Start) =~= Set::<Seq<u8>>::empty());
    }
}

/// One step of iteration returns the least key left to visit, and leaves
/// exactly the other keys still to visit: keys come out in ascending order,
/// none skipped and none repeated.
pub proof fn law_iteration_step(m: Map<Seq<u8>, Seq<u8>>, it: IterView, k: Seq<u8>)
    requires
        is_next_key(m, it, k),
    ensures
        remaining(m, it.bound, it.cursor).contains(k),
        forall|k2: Seq<u8>| #[trigger] remaining(m, it.bound, it.cursor).contains(k2) ==> k2 == k || lex_lt(k, k2),
        remaining(m, it.bound, CursorView::After(k)) == remaining(m, it.bound, it.cursor).remove(k),
{
    let before = remaining(m, it.bound, it.cursor);
    let after = remaining(m, it.bound, CursorView::After(k));
    assert forall|k2: Seq<u8>| after.contains(k2) implies before.remove(k).contains(k2) by {
        crate::bytes::lemma_lex_irreflexive(k);
        match it.cursor {
            CursorView::After(last) => {
                lemma_lex_transitive(last, k, k2);
            },
            _ => {},
        }
    }
    assert forall|k2: Seq<u8>| before.remove(k).contains(k2) implies after.contains(k2) by {
        assert(m.contains_key(k2) && unconsumed(it, k2));
    }
    assert(after =~= before.remove(k));
}

/// An iterator that reports exhaustion has no stored key left to visit.
pub proof fn law_exhausted_is_empty(m: Map<Seq<u8>, Seq<u8>>, it: IterView)
    requires
        is_exhausted(m, it),
    ensures
        remaining(m, it.bound, it.cursor).is_empty(),
{
    assert(remaining(m, it.bound, it.cursor) =~= Set::<Seq<u8>>::empty());
}

/// A `set` or `remove` of a key in a live iterator's window (within its
/// bound, at or after its cursor) leaves that iterator invalidated, so its
/// next advance fails.
pub proof fn law_mutation_invalidates(views: Seq<Option<IterView>>, h: u64, k: Seq<u8>)
    requires
        is_live(views, h),
        in_window(views[h as int]->Some_0, k),
    ensures
        is_live(touch(views, k), h),
        touch(views, k)[h as int]->Some_0.invalidated,
{
}


/// Every finite non-empty set of keys has a least key.
pub proof fn lemma_least_exists(s: Set<Seq<u8>>)
    requires
        s.finite(),
        s.len() > 0,
    ensures
        exists|k: Seq<u8>| s.contains(k) && forall|k2: Seq<u8>| #[trigger] s.contains(k2) ==> k2 == k || lex_lt(k, k2),
    decreases s.len(),
{
    vstd::set_lib::lemma_set_empty_equivalency_len(s);
    let x = choose|x: Seq<u8>| s.contains(x);
    let rest = s.remove(x);
    if rest.len() == 0 {
        rest.lemma_len0_is_empty();
        assert forall|k2: Seq<u8>| #[trigger] s.contains(k2) implies k2 == x || lex_lt(x, k2) by {
            if k2 != x {
                assert(rest.contains(k2));
            }
        }
    } else {
        lemma_least_exists(rest);
        let m = choose|k: Seq<u8>| rest.contains(k) && forall|k2: Seq<u8>| #[trigger] rest.contains(k2) ==> k2 == k || lex_lt(k, k2);
        lemma_lex_total(x, m);
        if lex_lt(x, m) {
            assert forall|k2: Seq<u8>| #[trigger] s.contains(k2) implies k2 == x || lex_lt(x, k2) by {
                if k2 != x {
                    assert(rest.contains(k2));
                    if k2 != m {
                        lemma_lex_transitive(x, m, k2);
                    }
                }
            }
        } else {
            assert forall|k2: Seq<u8>| #[trigger] s.contains(k2) implies k2 == m || lex_lt(m, k2) by {
                if k2 != x {
                    assert(rest.contains(k2));
                }
            }
        }
    }
}

/// The keys of a well-formed store form a finite set.
pub proof fn lemma_store_finite(entries: Seq<Entry>, m: Map<Seq<u8>, Seq<u8>>)
    requires
        entries_wf(entries, m),
    ensures
        m.dom().finite(),
{
    let keys = entries.map_values(|e: Entry| e.key@);
    assert forall|k: Seq<u8>| m.dom().contains(k) implies keys.to_set().contains(k) by {
        let i = choose|i: int| 0 <= i < entries.len() && entries[i].key@ == k;
        assert(keys[i] == k);
    }
    vstd::seq_lib::seq_to_set_is_finite(keys);
    vstd::set_lib::lemma_len_subset(m.dom(), keys.to_set());
}

} // verus!
