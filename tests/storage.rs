use near_mock_vm::storage::Storage;
use near_mock_vm::error::HostError;

#[test]
fn set_returns_displaced_value() {
    let mut s = Storage::new();
    assert_eq!(s.set(b"key42".to_vec(), b"value1337".to_vec()), None);
    assert_eq!(s.set(b"key42".to_vec(), b"new_value".to_vec()), Some(b"value1337".to_vec()));
    assert_eq!(s.get(b"key42"), Some(&b"new_value".to_vec()));
}

#[test]
fn get_missing_key_is_absent() {
    let mut s = Storage::new();
    s.set(b"key42".to_vec(), b"value1337".to_vec());
    assert_eq!(s.get(b"no_key"), None);
    assert!(s.has(b"key42"));
    assert!(!s.has(b"no_key"));
}

#[test]
fn remove_returns_value_then_absent() {
    let mut s = Storage::new();
    s.set(b"key42".to_vec(), b"value1337".to_vec());
    assert_eq!(s.remove(b"key42"), Some(b"value1337".to_vec()));
    assert_eq!(s.remove(b"no_value_key"), None);
    assert_eq!(s.get(b"key42"), None);
}

#[test]
fn prefix_iterator_single_key() {
    let mut s = Storage::new();
    s.set(b"key42".to_vec(), b"value1337".to_vec());
    let it = s.iter_prefix(b"key42".to_vec());
    assert_eq!(s.iter_next(it), Ok(Some((b"key42".to_vec(), b"value1337".to_vec()))));
    assert_eq!(s.iter_next(it), Ok(None));
    let other = s.iter_prefix(b"not_existing_key".to_vec());
    assert_eq!(s.iter_next(other), Ok(None));
}

#[test]
fn range_iterator_end_is_exclusive() {
    let mut s = Storage::new();
    s.set(b"key42".to_vec(), b"value1337".to_vec());
    s.set(b"key43".to_vec(), b"val".to_vec());
    let it = s.iter_range(b"key42".to_vec(), b"key43".to_vec());
    assert_eq!(s.iter_next(it), Ok(Some((b"key42".to_vec(), b"value1337".to_vec()))));
    assert_eq!(s.iter_next(it), Ok(None));
}

#[test]
fn prefix_iterator_ascending_and_only_matching() {
    let mut s = Storage::new();
    s.set(b"ab3".to_vec(), b"3".to_vec());
    s.set(b"b".to_vec(), b"x".to_vec());
    s.set(b"ab1".to_vec(), b"1".to_vec());
    s.set(b"a".to_vec(), b"y".to_vec());
    s.set(b"ab".to_vec(), b"0".to_vec());
    let it = s.iter_prefix(b"ab".to_vec());
    assert_eq!(s.iter_next(it), Ok(Some((b"ab".to_vec(), b"0".to_vec()))));
    assert_eq!(s.iter_next(it), Ok(Some((b"ab1".to_vec(), b"1".to_vec()))));
    assert_eq!(s.iter_next(it), Ok(Some((b"ab3".to_vec(), b"3".to_vec()))));
    assert_eq!(s.iter_next(it), Ok(None));
}

#[test]
fn range_with_start_not_below_end_is_exhausted() {
    let mut s = Storage::new();
    s.set(b"k1".to_vec(), b"1".to_vec());
    s.set(b"k2".to_vec(), b"2".to_vec());
    let equal = s.iter_range(b"k1".to_vec(), b"k1".to_vec());
    assert_eq!(s.iter_next(equal), Ok(None));
    let reversed = s.iter_range(b"k2".to_vec(), b"k1".to_vec());
    assert_eq!(s.iter_next(reversed), Ok(None));
}

#[test]
fn mutation_ahead_of_cursor_invalidates() {
    let mut s = Storage::new();
    s.set(b"k1".to_vec(), b"1".to_vec());
    s.set(b"k3".to_vec(), b"3".to_vec());
    let it = s.iter_prefix(b"k".to_vec());
    assert_eq!(s.iter_next(it), Ok(Some((b"k1".to_vec(), b"1".to_vec()))));
    s.set(b"k2".to_vec(), b"2".to_vec());
    assert_eq!(s.iter_next(it), Err(HostError::IteratorWasInvalidated));
    assert_eq!(s.iter_next(it), Err(HostError::IteratorWasInvalidated));
}

#[test]
fn mutation_behind_cursor_or_outside_bound_keeps_iterator() {
    let mut s = Storage::new();
    s.set(b"k1".to_vec(), b"1".to_vec());
    s.set(b"k3".to_vec(), b"3".to_vec());
    let it = s.iter_prefix(b"k".to_vec());
    assert_eq!(s.iter_next(it), Ok(Some((b"k1".to_vec(), b"1".to_vec()))));
    s.set(b"k0".to_vec(), b"0".to_vec());
    s.remove(b"k0");
    s.set(b"z".to_vec(), b"z".to_vec());
    assert_eq!(s.iter_next(it), Ok(Some((b"k3".to_vec(), b"3".to_vec()))));
}

#[test]
fn dropped_or_unknown_iterator_is_invalid_id() {
    let mut s = Storage::new();
    let it = s.iter_prefix(b"".to_vec());
    assert_eq!(s.iter_drop(it), Ok(()));
    assert_eq!(s.iter_next(it), Err(HostError::InvalidIteratorId));
    assert_eq!(s.iter_drop(it), Err(HostError::InvalidIteratorId));
    assert_eq!(s.iter_next(99), Err(HostError::InvalidIteratorId));
}

#[test]
fn mutation_at_cursor_invalidates() {
    let mut s = Storage::new();
    s.set(b"k1".to_vec(), b"1".to_vec());
    s.set(b"k3".to_vec(), b"3".to_vec());
    let it = s.iter_prefix(b"k".to_vec());
    assert_eq!(s.iter_next(it), Ok(Some((b"k1".to_vec(), b"1".to_vec()))));
    s.set(b"k1".to_vec(), b"changed".to_vec());
    assert_eq!(s.iter_next(it), Err(HostError::IteratorWasInvalidated));
    let other = s.iter_prefix(b"k".to_vec());
    assert_eq!(s.iter_next(other), Ok(Some((b"k1".to_vec(), b"changed".to_vec()))));
    s.remove(b"k1");
    assert_eq!(s.iter_next(other), Err(HostError::IteratorWasInvalidated));
}

#[test]
fn exhausted_iterator_ignores_later_writes() {
    let mut s = Storage::new();
    s.set(b"k1".to_vec(), b"1".to_vec());
    let it = s.iter_prefix(b"k".to_vec());
    assert_eq!(s.iter_next(it), Ok(Some((b"k1".to_vec(), b"1".to_vec()))));
    assert_eq!(s.iter_next(it), Ok(None));
    s.set(b"k2".to_vec(), b"2".to_vec());
    assert_eq!(s.iter_next(it), Ok(None));
}
