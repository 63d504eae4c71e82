use vstd::prelude::*;
use crate::error::HostError;
use crate::memory::range_fits;
use crate::le::{le_to_u32, le_value};
use crate::outside::{is_utf8, utf16_decoded, utf16_to_utf8, utf8_ok};
use crate::vm::{bytes_result, fetch_spec, keeps_env, raw_source, HostView, ReturnData, ReturnDataView, Source, VM};

verus! {
/// `i` is the first zero byte at or after `ptr` in `mem`.
pub open spec fn first_zero(mem: Seq<u8>, ptr: int, i: int) -> bool {
    &&& ptr <= i < mem.len()
    &&& mem[i] == 0
    &&& forall|j: int| ptr <= j < i ==> mem[j] != 0
}

/// The bytes from `ptr` up to the first zero byte, or `None` when guest
/// memory ends first.
pub open spec fn cstr(mem: Seq<u8>, ptr: u64) -> Option<Seq<u8>> {
    if exists|i: int| first_zero(mem, ptr as int, i) {
        Some(mem.subrange(ptr as int, choose|i: int| first_zero(mem, ptr as int, i)))
    } else {
        None
    }
}

/// A UTF-8 string argument: `len` bytes at `ptr`, or up to a zero byte when
/// `len` is `u64::MAX`.
pub open spec fn utf8_arg(mem: Seq<u8>, len: u64, ptr: u64) -> Result<Seq<u8>, HostError> {
    let raw: Option<Seq<u8>> = if len != u64::MAX {
        if range_fits(mem.len(), ptr, len) { Some(mem.subrange(ptr as int, ptr + len)) } else { None }
    } else {
        cstr(mem, ptr)
    };
    match raw {
        None => Err(HostError::MemoryAccessViolation),
        Some(b) => if utf8_ok(b) { Ok(b) } else { Err(HostError::BadUtf8) },
    }
}

/// The little-endian 16-bit units that the bytes `b` hold.
pub open spec fn units_of(b: Seq<u8>) -> Seq<u16> {
    Seq::new(b.len() / 2, |i: int| (b[2 * i] + 256 * b[2 * i + 1]) as u16)
}

/// `k` is the first zero unit at or after `ptr` in `mem`.
pub open spec fn first_zero_unit(mem: Seq<u8>, ptr: int, k: int) -> bool {
    &&& 0 <= k
    &&& ptr + 2 * k + 2 <= mem.len()
    &&& mem[ptr + 2 * k] == 0 && mem[ptr + 2 * k + 1] == 0
    &&& forall|j: int| 0 <= j < k ==> !(mem[ptr + 2 * j] == 0 && #[trigger] mem[ptr + 2 * j + 1] == 0)
}

/// The bytes from `ptr` up to the first zero unit, or `None` when guest
/// memory ends first.
pub open spec fn cstr16(mem: Seq<u8>, ptr: u64) -> Option<Seq<u8>> {
    if exists|k: int| first_zero_unit(mem, ptr as int, k) {
        Some(mem.subrange(ptr as int, ptr + 2 * (choose|k: int| first_zero_unit(mem, ptr as int, k))))
    } else {
        None
    }
}

/// A UTF-16 string argument: `len` bytes at `ptr`, or up to a zero unit when
/// `len` is `u64::MAX`; handed back as UTF-8.
pub open spec fn utf16_arg(mem: Seq<u8>, len: u64, ptr: u64) -> Result<Seq<u8>, HostError> {
    let raw: Result<Seq<u8>, HostError> = if len != u64::MAX {
        if !range_fits(mem.len(), ptr, len) {
            Err(HostError::MemoryAccessViolation)
        } else if len % 2 != 0 {
            Err(HostError::BadUtf16)
        } else {
            Ok(mem.subrange(ptr as int, ptr + len))
        }
    } else {
        match cstr16(mem, ptr) {
            None => Err(HostError::MemoryAccessViolation),
            Some(b) => Ok(b),
        }
    };
    match raw {
        Err(e) => Err(e),
        Ok(b) => match utf16_decoded(units_of(b)) {
            None => Err(HostError::BadUtf16),
            Some(s) => Ok(s),
        },
    }
}

/// The 4-byte little-endian length stored just before `ptr`.
pub open spec fn u32_before(mem: Seq<u8>, ptr: u32) -> Result<u32, HostError> {
    if range_fits(mem.len(), (ptr - 4) as u64, 4) {
        Ok(le_value(mem.subrange(ptr - 4, ptr as int)) as u32)
    } else {
        Err(HostError::MemoryAccessViolation)
    }
}

/// What `abort` reports: the first error reading its two strings, or the
/// guest panic it raises.
pub open spec fn abort_error(mem: Seq<u8>, msg_ptr: u32, filename_ptr: u32) -> HostError {
    if msg_ptr < 4 || filename_ptr < 4 {
        HostError::BadUtf16
    } else {
        match u32_before(mem, msg_ptr) {
            Err(e) => e,
            Ok(msg_len) => match u32_before(mem, filename_ptr) {
                Err(e) => e,
                Ok(file_len) => match utf16_arg(mem, msg_len as u64, msg_ptr as u64) {
                    Err(e) => e,
                    Ok(_) => match utf16_arg(mem, file_len as u64, filename_ptr as u64) {
                        Err(e) => e,
                        Ok(_) => HostError::GuestPanic,
                    },
                },
            },
        }
    }
}

pub open spec fn logged(pre: HostView, msg: Seq<u8>) -> HostView {
    HostView { logs: pre.logs.push(msg), ..pre }
}

impl VM {
    /// The bytes from `ptr` up to the first zero byte.
    fn read_cstr(&self, ptr: u64) -> (r: Result<Vec<u8>, HostError>)
        ensures
            cstr(self.memory@, ptr) matches Some(b) ==> (r matches Ok(v) && v@ == b),
            cstr(self.memory@, ptr) is None ==> r == Err::<Vec<u8>, HostError>(HostError::MemoryAccessViolation),
    {
        let nu = self.memory.len();
        let n = nu as u64;
        if ptr >= n {
            assert(!exists|k: int| first_zero(self.memory@, ptr as int, k));
            return Err(HostError::MemoryAccessViolation);
        }
        let mut i: u64 = ptr;
        loop
            invariant
                n == self.memory@.len(),
                nu == n,
                ptr <= i <= n,
                forall|j: int| ptr <= j < i ==> self.memory@[j] != 0,
            decreases n - i,
        {
            if i == n {
                assert forall|k: int| !first_zero(self.memory@, ptr as int, k) by {
                    if first_zero(self.memory@, ptr as int, k) {
                        assert(self.memory@[k] != 0);
                    }
                }
                return Err(HostError::MemoryAccessViolation);
            }
            if self.memory.bytes[i as usize] == 0 {
                assert(first_zero(self.memory@, ptr as int, i as int));
                let ghost c = choose|k: int| first_zero(self.memory@, ptr as int, k);
                assert(c == i) by {
                    if c < i {
                        assert(self.memory@[c] != 0);
                    } else if c > i {
                        assert(self.memory@[i as int] != 0);
                    }
                }
                return self.memory.read(ptr, i - ptr);
            }
            i = i + 1;
        }
    }

    /// The bytes from `ptr` up to the first zero 16-bit unit.
    fn read_cstr16(&self, ptr: u64) -> (r: Result<Vec<u8>, HostError>)
        ensures
            cstr16(self.memory@, ptr) matches Some(b) ==> (r matches Ok(v) && v@ == b),
            cstr16(self.memory@, ptr) is None ==> r == Err::<Vec<u8>, HostError>(HostError::MemoryAccessViolation),
    {
        let nu = self.memory.len();
        let n = nu as u64;
        if ptr > n {
            assert forall|c: int| !first_zero_unit(self.memory@, ptr as int, c) by {}
            return Err(HostError::MemoryAccessViolation);
        }
        let mut k: u64 = 0;
        loop
            invariant
                n == self.memory@.len(),
                nu == n,
                ptr <= n,
                ptr + 2 * k <= n,
                forall|j: int| 0 <= j < k ==> !(self.memory@[ptr + 2 * j] == 0 && #[trigger] self.memory@[ptr + 2 * j + 1] == 0),
            decreases n - (ptr + 2 * k),
        {
            let at = ptr + 2 * k;
            if n - at < 2 {
                proof {
                    assert forall|c: int| !first_zero_unit(self.memory@, ptr as int, c) by {
                        if first_zero_unit(self.memory@, ptr as int, c) && c < k {
                            assert(!(self.memory@[ptr + 2 * c] == 0 && self.memory@[ptr + 2 * c + 1] == 0));
                        }
                    }
                }
                return Err(HostError::MemoryAccessViolation);
            }
            let lo = self.memory.bytes[at as usize];
            let hi = self.memory.bytes[(at + 1) as usize];
            if lo == 0 && hi == 0 {
                assert(first_zero_unit(self.memory@, ptr as int, k as int));
                let ghost c = choose|c: int| first_zero_unit(self.memory@, ptr as int, c);
                assert(c == k) by {
                    if c < k {
                        assert(!(self.memory@[ptr + 2 * c] == 0 && self.memory@[ptr + 2 * c + 1] == 0));
                    } else if c > k {
                        assert(!(self.memory@[ptr + 2 * k] == 0 && self.memory@[ptr + 2 * k + 1] == 0));
                    }
                }
                return self.memory.read(ptr, 2 * k);
            }
            k = k + 1;
        }
    }

    fn utf8_string(&self, len: u64, ptr: u64) -> (r: Result<Vec<u8>, HostError>)
        ensures
            bytes_result(r) == utf8_arg(self.memory@, len, ptr),
    {
        let raw = if len != u64::MAX {
            self.memory.read(ptr, len)?
        } else {
            self.read_cstr(ptr)?
        };
        if is_utf8(raw.as_slice()) {
            Ok(raw)
        } else {
            Err(HostError::BadUtf8)
        }
    }

    fn utf16_string(&self, len: u64, ptr: u64) -> (r: Result<Vec<u8>, HostError>)
        ensures
            bytes_result(r) == utf16_arg(self.memory@, len, ptr),
    {
        let raw = if len != u64::MAX {
            let b = self.memory.read(ptr, len)?;
            if len % 2 != 0 {
                return Err(HostError::BadUtf16);
            }
            b
        } else {
            self.read_cstr16(ptr)?
        };
        let mut units: Vec<u16> = Vec::with_capacity(raw.len() / 2);
        let mut i: usize = 0;
        while i < raw.len() / 2
            invariant
                i <= raw@.len() / 2,
                units@ =~= units_of(raw@).subrange(0, i as int),
            decreases raw@.len() / 2 - i,
        {
            let lo = raw[2 * i] as u16;
            let hi = raw[2 * i + 1] as u16;
            units.push(lo + 256 * hi);
            i = i + 1;
        }
        assert(units@ =~= units_of(raw@));
        match utf16_to_utf8(units.as_slice()) {
            Some(s) => Ok(s),
            None => Err(HostError::BadUtf16),
        }
    }

    /// Makes the call return the bytes `(value_ptr, value_len)` names.
    pub fn value_return(&mut self, value_len: u64, value_ptr: u64) -> (r: Result<(), HostError>)
        requires
            old(self).wf(),
        ensures
            final(self).wf(),
            keeps_env(*old(self), *final(self)),
            fetch_spec(old(self).memory@, old(self).state@.registers, raw_source(value_ptr, value_len)) matches Err(e)
                ==> r == Err::<(), HostError>(e) && final(self).state@ == old(self).state@,
            fetch_spec(old(self).memory@, old(self).state@.registers, raw_source(value_ptr, value_len)) matches Ok(v)
                ==> r is Ok && final(self).state@ == (HostView { return_data: ReturnDataView::Value(v), ..old(self).state@ }),
    {
        let v = self.fetch(Source::from_raw(value_ptr, value_len))?;
        self.state.return_data = ReturnData::Value(v);
        Ok(())
    }

    /// Stops the call with a guest panic.
    pub fn panic(&self) -> (r: Result<(), HostError>)
        ensures
            r == Err::<(), HostError>(HostError::GuestPanic),
    {
        Err(HostError::GuestPanic)
    }

    /// Stops the call with a guest panic carrying a UTF-8 message; a message
    /// that cannot be read is reported instead.
    pub fn panic_utf8(&self, len: u64, ptr: u64) -> (r: Result<(), HostError>)
        ensures
            utf8_arg(self.memory@, len, ptr) matches Err(e) ==> r == Err::<(), HostError>(e),
            utf8_arg(self.memory@, len, ptr) is Ok ==> r == Err::<(), HostError>(HostError::GuestPanic),
    {
        let _message = self.utf8_string(len, ptr)?;
        Err(HostError::GuestPanic)
    }

    /// Appends a UTF-8 message to the logs.
    pub fn log_utf8(&mut self, len: u64, ptr: u64) -> (r: Result<(), HostError>)
        requires
            old(self).wf(),
        ensures
            final(self).wf(),
            keeps_env(*old(self), *final(self)),
            utf8_arg(old(self).memory@, len, ptr) matches Err(e) ==> r == Err::<(), HostError>(e) && final(self).state@ == old(self).state@,
            utf8_arg(old(self).memory@, len, ptr) matches Ok(m) ==> r is Ok && final(self).state@ == logged(old(self).state@, m),
    {
        let message = self.utf8_string(len, ptr)?;
        let ghost m = message@;
        self.state.logs.push(message);
        assert(self.state@.logs =~= old(self).state@.logs.push(m));
        Ok(())
    }

    /// Appends a UTF-16 message, kept as UTF-8, to the logs.
    pub fn log_utf16(&mut self, len: u64, ptr: u64) -> (r: Result<(), HostError>)
        requires
            old(self).wf(),
        ensures
            final(self).wf(),
            keeps_env(*old(self), *final(self)),
            utf16_arg(old(self).memory@, len, ptr) matches Err(e) ==> r == Err::<(), HostError>(e) && final(self).state@ == old(self).state@,
            utf16_arg(old(self).memory@, len, ptr) matches Ok(m) ==> r is Ok && final(self).state@ == logged(old(self).state@, m),
    {
        let message = self.utf16_string(len, ptr)?;
        let ghost m = message@;
        self.state.logs.push(message);
        assert(self.state@.logs =~= old(self).state@.logs.push(m));
        Ok(())
    }

    fn u32_before_ptr(&self, ptr: u32) -> (r: Result<u32, HostError>)
        requires
            ptr >= 4,
        ensures
            r == u32_before(self.memory@, ptr),
    {
        let b = self.memory.read((ptr - 4) as u64, 4)?;
        Ok(le_to_u32(b.as_slice()))
    }

    /// The abort of an AssemblyScript guest: reads the message and file name,
    /// each a UTF-16 string whose byte length is stored in the four bytes
    /// before it, and stops the call with a guest panic.
    pub fn abort(&self, msg_ptr: u32, filename_ptr: u32, line: u32, col: u32) -> (r: Result<(), HostError>)
        ensures
            r == Err::<(), HostError>(abort_error(self.memory@, msg_ptr, filename_ptr)),
    {
        if msg_ptr < 4 || filename_ptr < 4 {
            return Err(HostError::BadUtf16);
        }
        let msg_len = self.u32_before_ptr(msg_ptr)?;
        let file_len = self.u32_before_ptr(filename_ptr)?;
        let _msg = self.utf16_string(msg_len as u64, msg_ptr as u64)?;
        let _file = self.utf16_string(file_len as u64, filename_ptr as u64)?;
        Err(HostError::GuestPanic)
    }
}

} // verus!
