use near_mock_vm::bytes::{bytes_eq, bytes_has_prefix, bytes_lt, copy_bytes};
use near_mock_vm::error::HostError;
use near_mock_vm::le::{le_to_u128, le_to_u32, le_to_u64, u128_to_le_bytes};
use near_mock_vm::memory::MockedMemory;
use near_mock_vm::registers::RegisterBank;

#[test]
fn memory_bounds_fail_closed() {
    let mut m = MockedMemory::new(8);
    assert!(m.fits(0, 8));
    assert!(!m.fits(1, 8));
    assert!(!m.fits(u64::MAX, 2));
    assert_eq!(m.write(6, &[1, 2, 3]), Err(HostError::MemoryAccessViolation));
    assert_eq!(m.bytes, vec![0u8; 8]);
    assert_eq!(m.write(5, &[1, 2, 3]), Ok(()));
    assert_eq!(m.read(5, 3), Ok(vec![1, 2, 3]));
    assert_eq!(m.read(6, 3), Err(HostError::MemoryAccessViolation));
    assert_eq!(m.read_u8(7), Ok(3));
    assert_eq!(m.read_u8(8), Err(HostError::MemoryAccessViolation));
}

#[test]
fn byte_order_is_lexicographic() {
    assert!(bytes_lt(b"", b"a"));
    assert!(bytes_lt(b"key42", b"key43"));
    assert!(bytes_lt(b"key4", b"key42"));
    assert!(!bytes_lt(b"key42", b"key42"));
    assert!(!bytes_lt(b"b", b"abc"));
    assert!(bytes_has_prefix(b"key42", b"key"));
    assert!(bytes_has_prefix(b"key42", b""));
    assert!(!bytes_has_prefix(b"ke", b"key"));
    assert!(bytes_eq(b"abc", b"abc"));
    assert!(!bytes_eq(b"abc", b"abd"));
    assert_eq!(copy_bytes(b"xyz"), b"xyz".to_vec());
}

#[test]
fn register_bank_overwrites_whole_content() {
    let mut r = RegisterBank::new();
    assert!(!r.is_used(3));
    r.write(3, vec![1, 2, 3, 4]);
    r.write(3, vec![9]);
    assert_eq!(r.get(3), Some(&vec![9]));
    assert_eq!(r.len_of(3), 1);
    assert_eq!(r.len_of(4), u64::MAX);
    let copy = r.copy();
    r.write(3, vec![]);
    assert_eq!(copy.get(3), Some(&vec![9]));
    assert_eq!(r.len_of(3), 0);
}

#[test]
fn little_endian_conversions() {
    assert_eq!(le_to_u128(&[1, 2]), 513);
    assert_eq!(le_to_u128(&[0xff; 16]), u128::MAX);
    assert_eq!(le_to_u64(&7u64.to_le_bytes()), 7);
    assert_eq!(le_to_u64(&0x0102030405060708u64.to_le_bytes()), 0x0102030405060708);
    assert_eq!(le_to_u32(&[6, 0, 0, 1]), 0x0100_0006);
    assert_eq!(u128_to_le_bytes(0x0102), {
        let mut v = vec![0u8; 16];
        v[0] = 2;
        v[1] = 1;
        v
    });
    assert_eq!(u128_to_le_bytes(u128::MAX), vec![0xff; 16]);
}
