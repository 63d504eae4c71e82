use vstd::prelude::*;
use crate::bytes::copy_bytes;

verus! {

/// One used register.
pub struct Register {
    pub id: u64,
    pub data: Vec<u8>,
}

/// Registers keyed by id; an id absent from the model is unused.
pub struct RegisterBank {
    pub slots: Vec<Register>,
    pub model: Ghost<Map<u64, Seq<u8>>>,
}

impl RegisterBank {
    pub open spec fn view(&self) -> Map<u64, Seq<u8>> {
        self.model@
    }

    /// Slot ids are unique and the slots hold exactly the model.
    pub open spec fn wf(&self) -> bool {
        &&& forall|i: int, j: int|
            0 <= i < j < self.slots@.len() ==> self.slots@[i].id != self.slots@[j].id
        &&& forall|i: int|
            0 <= i < self.slots@.len() ==> #[trigger] self.model@.contains_key(self.slots@[i].id)
                && self.model@[self.slots@[i].id] == self.slots@[i].data@
        &&& forall|id: u64|
            #[trigger] self.model@.contains_key(id) ==> exists|i: int|
                0 <= i < self.slots@.len() && self.slots@[i].id == id
    }

    pub fn new() -> (r: RegisterBank)
        ensures
            r.wf(),
            r@ == Map::<u64, Seq<u8>>::empty(),
    {
        RegisterBank { slots: Vec::new(), model: Ghost(Map::empty()) }
    }

    /// Position of register `id` among the slots, if it is used.
    fn find(&self, id: u64) -> (r: Option<usize>)
        requires
            self.wf(),
        ensures
            r matches Some(i) ==> i < self.slots@.len() && self.slots@[i as int].id == id,
            r is None ==> !self@.contains_key(id),
    {
        let mut i: usize = 0;
        while i < self.slots.len()
            invariant
                i <= self.slots@.len(),
                forall|j: int| 0 <= j < i ==> self.slots@[j].id != id,
            decreases self.slots@.len() - i,
        {
            if self.slots[i].id == id {
                return Some(i);
            }
            i = i + 1;
        }
        None
    }

    /// Whether register `id` is used.
    pub fn is_used(&self, id: u64) -> (r: bool)
        requires
            self.wf(),
        ensures
            r == self@.contains_key(id),
    {
        match self.find(id) {
            Some(_) => true,
            None => false,
        }
    }

    /// The content of register `id`, or `None` when it is unused.
    pub fn get(&self, id: u64) -> (r: Option<&Vec<u8>>)
        requires
            self.wf(),
        ensures
            self@.contains_key(id) ==> (r matches Some(v) && v@ == self@[id]),
            !self@.contains_key(id) ==> r is None,
    {
        match self.find(id) {
            Some(i) => Some(&self.slots[i].data),
            None => None,
        }
    }

    /// Length of register `id`, or `u64::MAX` when it is unused.
    pub fn len_of(&self, id: u64) -> (r: u64)
        requires
            self.wf(),
        ensures
            r == register_len_spec(self@, id),
    {
        match self.find(id) {
            Some(i) => self.slots[i].data.len() as u64,
            None => u64::MAX,
        }
    }

    /// Replaces the whole content of register `id` with `data`.
    pub fn write(&mut self, id: u64, data: Vec<u8>)
        requires
            old(self).wf(),
        ensures
            final(self).wf(),
            final(self)@ == old(self)@.insert(id, data@),
    {
        let ghost d = data@;
        let ghost old_slots = self.slots@;
        let ghost old_model = self.model@;
        match self.find(id) {
            Some(i) => {
                self.slots.set(i, Register { id, data });
                self.model = Ghost(self.model@.insert(id, d));
                assert forall|id2: u64| #[trigger] self.model@.contains_key(id2) implies exists|k: int|
                    0 <= k < self.slots@.len() && self.slots@[k].id == id2 by {
                    if id2 == id {
                        assert(self.slots@[i as int].id == id2);
                    } else {
                        assert(old_model.contains_key(id2));
                        let k = choose|k: int| 0 <= k < old_slots.len() && old_slots[k].id == id2;
                        assert(self.slots@[k].id == id2);
                    }
                }
            },
            None => {
                assert forall|k: int| 0 <= k < old_slots.len() implies old_slots[k].id != id by {
                    assert(old_model.contains_key(old_slots[k].id));
                }
                self.slots.push(Register { id, data });
                self.model = Ghost(self.model@.insert(id, d));
                assert forall|id2: u64| #[trigger] self.model@.contains_key(id2) implies exists|k: int|
                    0 <= k < self.slots@.len() && self.slots@[k].id == id2 by {
                    if id2 == id {
                        assert(self.slots@[self.slots@.len() - 1].id == id2);
                    } else {
                        assert(old_model.contains_key(id2));
                        let k = choose|k: int| 0 <= k < old_slots.len() && old_slots[k].id == id2;
                        assert(self.slots@[k].id == id2);
                    }
                }
            },
        }
    }

    /// An independent copy with the same registers.
    pub fn copy(&self) -> (r: RegisterBank)
        requires
            self.wf(),
        ensures
            r.wf(),
            r@ == self@,
    {
        let mut slots: Vec<Register> = Vec::with_capacity(self.slots.len());
        let mut i: usize = 0;
        while i < self.slots.len()
            invariant
                i <= self.slots@.len(),
                slots@.len() == i,
                forall|j: int|
                    0 <= j < i ==> slots@[j].id == self.slots@[j].id && slots@[j].data@
                        == self.slots@[j].data@,
            decreases self.slots@.len() - i,
        {
            slots.push(Register { id: self.slots[i].id, data: copy_bytes(self.slots[i].data.as_slice()) });
            i = i + 1;
        }
        let r = RegisterBank { slots, model: Ghost(self.model@) };
        assert forall|id2: u64| #[trigger] r.model@.contains_key(id2) implies exists|k: int|
            0 <= k < r.slots@.len() && r.slots@[k].id == id2 by {
            let k = choose|k: int| 0 <= k < self.slots@.len() && self.slots@[k].id == id2;
            assert(r.slots@[k].id == id2);
        }
        r
    }
}

/// The value `register_len` reports: the byte count of a used register, the
/// maximum `u64` for an unused one.
pub open spec fn register_len_spec(regs: Map<u64, Seq<u8>>, id: u64) -> u64 {
    if regs.contains_key(id) {
        regs[id].len() as u64
    } else {
        u64::MAX
    }
}

/// Writing a register and then asking for its length gives the number of
/// bytes written; a register that was never written reports `u64::MAX`.
pub proof fn law_register_len_after_write(regs: Map<u64, Seq<u8>>, id: u64, data: Seq<u8>)
    requires
        data.len() <= u64::MAX,
    ensures
        register_len_spec(regs.insert(id, data), id) == data.len(),
        !regs.contains_key(id) ==> register_len_spec(regs, id) == u64::MAX,
{
}

} // verus!
