use vstd::prelude::*;
use crate::error::HostError;

verus! {

/// The flat guest memory region. Every access is bounds-checked and fails
/// closed with `MemoryAccessViolation`.
pub struct MockedMemory {
    pub bytes: Vec<u8>,
}

/// The range `[offset, offset + len)` lies inside a region of `size` bytes.
pub open spec fn range_fits(size: nat, offset: u64, len: u64) -> bool {
    offset as int + len as int <= size
}

impl MockedMemory {
    pub open spec fn view(&self) -> Seq<u8> {
        self.bytes@
    }

    /// A zero-filled region of `size` bytes.
    pub fn new(size: usize) -> (r: MockedMemory)
        ensures
            r@ == Seq::new(size as nat, |i: int| 0u8),
    {
        let mut bytes: Vec<u8> = Vec::with_capacity(size);
        let mut i: usize = 0;
        while i < size
            invariant
                i <= size,
                bytes@ =~= Seq::new(i as nat, |j: int| 0u8),
            decreases size - i,
        {
            bytes.push(0u8);
            i = i + 1;
        }
        MockedMemory { bytes }
    }

    /// A region holding exactly `bytes`.
    pub fn from_bytes(bytes: Vec<u8>) -> (r: MockedMemory)
        ensures
            r@ == bytes@,
    {
        MockedMemory { bytes }
    }

    pub fn len(&self) -> (r: usize)
        ensures
            r == self@.len(),
    {
        self.bytes.len()
    }

    /// Whether `[offset, offset + len)` lies inside guest memory.
    pub fn fits(&self, offset: u64, len: u64) -> (r: bool)
        ensures
            r == range_fits(self@.len(), offset, len),
    {
        let size = self.bytes.len() as u64;
        offset <= size && len <= size - offset
    }

    /// The `len` bytes starting at `offset`.
    pub fn read(&self, offset: u64, len: u64) -> (r: Result<Vec<u8>, HostError>)
        ensures
            range_fits(self@.len(), offset, len) ==> (r matches Ok(v) && v@ == self@.subrange(
                offset as int,
                offset + len,
            )),
            !range_fits(self@.len(), offset, len) ==> r == Err::<Vec<u8>, HostError>(
                HostError::MemoryAccessViolation,
            ),
    {
        if !self.fits(offset, len) {
            return Err(HostError::MemoryAccessViolation);
        }
        let size = self.bytes.len();
        assert(offset + len <= size);
        let start = offset as usize;
        let end = (offset + len) as usize;
        let mut out: Vec<u8> = Vec::with_capacity(len as usize);
        let mut i: usize = start;
        while i < end
            invariant
                start <= i <= end,
                end <= self@.len(),
                start == offset,
                end == offset + len,
                out@ =~= self@.subrange(start as int, i as int),
            decreases end - i,
        {
            out.push(self.bytes[i]);
            i = i + 1;
        }
        Ok(out)
    }

    /// The single byte at `offset`.
    pub fn read_u8(&self, offset: u64) -> (r: Result<u8, HostError>)
        ensures
            offset < self@.len() ==> r == Ok::<u8, HostError>(self@[offset as int]),
            offset >= self@.len() ==> r == Err::<u8, HostError>(HostError::MemoryAccessViolation),
    {
        if offset >= self.bytes.len() as u64 {
            return Err(HostError::MemoryAccessViolation);
        }
        Ok(self.bytes[offset as usize])
    }

    /// Copies `data` into guest memory starting at `offset`; on failure memory
    /// is left untouched.
    pub fn write(&mut self, offset: u64, data: &[u8]) -> (r: Result<(), HostError>)
        ensures
            range_fits(old(self)@.len(), offset, data@.len() as u64) ==> r is Ok
                && final(self)@ == write_spec(old(self)@, offset as int, data@),
            !range_fits(old(self)@.len(), offset, data@.len() as u64) ==> r == Err::<(), HostError>(
                HostError::MemoryAccessViolation,
            ) && final(self)@ == old(self)@,
    {
        if !self.fits(offset, data.len() as u64) {
            return Err(HostError::MemoryAccessViolation);
        }
        let size = self.bytes.len();
        assert(offset + data@.len() <= size);
        let start = offset as usize;
        let mut i: usize = 0;
        while i < data.len()
            invariant
                start == offset,
                start + data@.len() <= self@.len(),
                self@.len() == old(self)@.len(),
                self@.len() == size,
                i <= data@.len(),
                forall|j: int|
                    0 <= j < self@.len() ==> self@[j] == (if start <= j < start + i {
                        data@[j - start]
                    } else {
                        old(self)@[j]
                    }),
            decreases data@.len() - i,
        {
            self.bytes.set(start + i, data[i]);
            i = i + 1;
        }
        assert(self@ =~= write_spec(old(self)@, offset as int, data@));
        Ok(())
    }
}

/// `mem` with `data` laid over it from `offset` on.
pub open spec fn write_spec(mem: Seq<u8>, offset: int, data: Seq<u8>) -> Seq<u8> {
    Seq::new(
        mem.len(),
        |j: int|
            if offset <= j < offset + data.len() {
                data[j - offset]
            } else {
                mem[j]
            },
    )
}

} // verus!
