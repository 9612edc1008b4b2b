use cvec::CVec;
use cvec::CVecError;

/// A capacity-5 sequence `[Occupied(1), Empty, Occupied(3), Empty, Empty]`,
/// built through the public interface.
fn gappy() -> CVec<u64> {
    let mut v: CVec<u64> = CVec::empty(5);
    assert!(v.insert(1).is_ok());
    assert!(v.insert(2).is_ok());
    assert!(v.insert(3).is_ok());
    assert!(v.insert(4).is_ok());
    assert_eq!(v.remove_not_compressed(1), Ok(2));
    assert_eq!(v.remove_not_compressed(3), Ok(4));
    v
}

#[test]
fn insert_get_round_trip() {
    let mut v: CVec<u64> = CVec::empty(4);
    assert!(v.insert(10).is_ok());
    assert!(v.insert(20).is_ok());
    assert!(v.insert(30).is_ok());
    assert_eq!(v.get(0), Some(10));
    assert_eq!(v.get(1), Some(20));
    assert_eq!(v.get(2), Some(30));
    assert_eq!(v.get(3), None);
}

#[test]
fn capacity_limit() {
    let mut v: CVec<u64> = CVec::empty(2);
    assert!(v.insert(1).is_ok());
    assert!(v.insert(2).is_ok());
    assert_eq!(v.insert(3), Err(CVecError::CapacityExceeded));
    // the full sequence is untouched by the refused insertion
    assert_eq!(v.get(0), Some(1));
    assert_eq!(v.get(1), Some(2));
}

#[test]
fn remove_empty_slot_fails() {
    let mut v: CVec<u64> = CVec::empty(3);
    assert!(v.insert(1).is_ok());
    assert_eq!(v.remove_not_compressed(1), Err(CVecError::EmptySlot));
    assert_eq!(v.remove_not_compressed(1), Err(CVecError::EmptySlot));
}

#[test]
fn remove_out_of_range_fails() {
    let mut v: CVec<u64> = CVec::empty(2);
    assert_eq!(v.remove_not_compressed(2), Err(CVecError::IndexOutOfRange));
    assert_eq!(v.remove(5), Err(CVecError::IndexOutOfRange));
}

#[test]
fn compress_idempotent() {
    let mut once = gappy();
    let mut twice = gappy();
    once.compress();
    twice.compress();
    twice.compress();
    assert!(once == twice);
}

#[test]
fn compress_preserves_order() {
    let mut v = gappy();
    // occupied values before compaction, in slot order: 1, 3
    v.compress();
    assert_eq!(v.get(0), Some(1));
    assert_eq!(v.get(1), Some(3));
    assert_eq!(v.get(2), None);
    assert_eq!(v.get(3), None);
    assert_eq!(v.get(4), None);
    assert_eq!(v.capacity(), 5);
}

#[test]
fn compress_all_empty() {
    let mut v: CVec<u64> = CVec::empty(4);
    v.compress();
    for i in 0..4 {
        assert_eq!(v.get(i), None);
    }
}

#[test]
fn compress_already_packed() {
    let mut v: CVec<u64> = CVec::new_slice(4, &[5, 6]);
    let packed: CVec<u64> = CVec::new_slice(4, &[5, 6]);
    v.compress();
    assert!(v == packed);
}

#[test]
fn compress_full_sequence() {
    let mut v: CVec<u64> = CVec::new_arr(vec![1, 2, 3]);
    let same: CVec<u64> = CVec::new_arr(vec![1, 2, 3]);
    v.compress();
    assert!(v == same);
}

#[test]
fn compress_gap_at_front() {
    let mut v: CVec<u64> = CVec::new_arr(vec![9, 7]);
    assert_eq!(v.remove_not_compressed(0), Ok(9));
    v.compress();
    assert_eq!(v.get(0), Some(7));
    assert_eq!(v.get(1), None);
}

#[test]
fn remove_compacts() {
    let mut v: CVec<u64> = CVec::new_arr(vec![1, 2, 3]);
    assert_eq!(v.remove(1), Ok(2));
    assert_eq!(v.get(0), Some(1));
    assert_eq!(v.get(1), Some(3));
    assert_eq!(v.get(2), None);
}

#[test]
fn poped_example() {
    let v: CVec<u64> = CVec::new_arr(vec![11, 22, 33]);
    let (head, rest) = v.poped();
    assert_eq!(head, Some(11));
    assert_eq!(rest.capacity(), 3);
    assert_eq!(rest.get(0), Some(22));
    assert_eq!(rest.get(1), Some(33));
    assert_eq!(rest.get(2), None);
}

#[test]
fn poped_empty_front() {
    let mut v: CVec<u64> = CVec::new_arr(vec![11, 22]);
    assert_eq!(v.remove_not_compressed(0), Ok(11));
    let (head, rest) = v.poped();
    assert_eq!(head, None);
    assert_eq!(rest.get(0), Some(22));
    assert_eq!(rest.get(1), None);
}

#[test]
fn extended_one_example() {
    let mut v: CVec<u64> = CVec::empty(2);
    assert!(v.insert(8).is_ok());
    let grown = v.extended_one();
    assert_eq!(grown.capacity(), 3);
    assert_eq!(grown.get(0), Some(8));
    assert_eq!(grown.get(1), None);
    assert_eq!(grown.get(2), None);
    // the original is unaffected
    assert_eq!(v.capacity(), 2);
    assert_eq!(v.get(0), Some(8));
}

#[test]
fn positional_equality() {
    // [Occupied(1), Empty]
    let a: CVec<u64> = CVec::new_slice(2, &[1]);
    // [Empty, Occupied(1)]
    let mut b: CVec<u64> = CVec::new_arr(vec![9, 1]);
    assert_eq!(b.remove_not_compressed(0), Ok(9));
    // the same multiset of values, but in different slot positions
    assert!(a != b);
    let c: CVec<u64> = CVec::new_slice(2, &[1]);
    assert!(a == c);
}

#[test]
fn equality_sees_values_and_capacity() {
    let a: CVec<u64> = CVec::new_slice(2, &[1, 2]);
    let b: CVec<u64> = CVec::new_slice(2, &[1, 3]);
    assert!(a != b);
    let short: CVec<u64> = CVec::new_slice(3, &[1, 2]);
    assert!(a != short);
}

#[test]
fn from_prefix_truncation() {
    let v: CVec<u64> = CVec::new_slice(2, &[7, 8, 9]);
    assert_eq!(v.capacity(), 2);
    assert_eq!(v.get(0), Some(7));
    assert_eq!(v.get(1), Some(8));
}

#[test]
fn from_prefix_short_input() {
    let v: CVec<u64> = CVec::new_slice(3, &[7]);
    assert_eq!(v.get(0), Some(7));
    assert_eq!(v.get(1), None);
    assert_eq!(v.get(2), None);
}

#[test]
fn from_exact_array() {
    let v: CVec<u64> = CVec::new_arr(vec![4, 5, 6]);
    assert_eq!(v.capacity(), 3);
    assert_eq!(v.get(0), Some(4));
    assert_eq!(v.get(1), Some(5));
    assert_eq!(v.get(2), Some(6));
}

#[test]
fn empty_sequence() {
    let v: CVec<u64> = CVec::empty(3);
    assert_eq!(v.capacity(), 3);
    assert_eq!(v.get(0), None);
    assert_eq!(v.get(1), None);
    assert_eq!(v.get(2), None);
}

#[test]
fn insert_fills_first_gap() {
    let mut v = gappy();
    assert!(v.insert(99).is_ok());
    assert_eq!(v.get(0), Some(1));
    assert_eq!(v.get(1), Some(99));
    assert_eq!(v.get(2), Some(3));
    assert_eq!(v.get(3), None);
}
