use tinyvec::ArrayVec;

#[test]
fn truncate_shortens_and_is_idempotent() {
    let mut v: ArrayVec<i32> = ArrayVec::new(8);
    for x in [1, 2, 3, 4, 5] {
        v.push(x);
    }
    v.truncate(7);
    assert_eq!(v.as_slice(), &[1, 2, 3, 4, 5]);
    v.truncate(2);
    assert_eq!(v.as_slice(), &[1, 2]);
    v.truncate(2);
    assert_eq!(v.as_slice(), &[1, 2]);
    assert_eq!(v.capacity(), 8);
}

#[test]
fn clear_empties() {
    let mut v: ArrayVec<i32> = ArrayVec::new(4);
    v.push(1);
    v.push(2);
    v.clear();
    assert!(v.is_empty());
    assert_eq!(v.capacity(), 4);
}

#[test]
fn set_len_only_moves_the_boundary() {
    let mut v: ArrayVec<i32> = ArrayVec::new(4);
    v.push(7);
    v.push(8);
    v.set_len(1);
    assert_eq!(v.as_slice(), &[7]);
    v.set_len(2);
    assert_eq!(v.as_slice(), &[7, 8]);
}

#[test]
fn get_and_set_reach_the_live_prefix() {
    let mut v: ArrayVec<i32> = ArrayVec::new(4);
    v.push(1);
    v.push(2);
    assert_eq!(*v.get(0), 1);
    v.set(0, 9);
    assert_eq!(v.as_slice(), &[9, 2]);
}

#[test]
fn from_array_len_uses_the_buffer() {
    let v: ArrayVec<i32> = ArrayVec::from_array_len(vec![1, 2, 3, 4], 2);
    assert_eq!(v.as_slice(), &[1, 2]);
    assert_eq!(v.capacity(), 4);
    assert_eq!(v.grab_spare_slice(), &[3, 4]);
}

#[test]
fn full_buffer_round_trips_in_order() {
    let buffer = vec![3, 1, 4, 1, 5];
    let v: ArrayVec<i32> = ArrayVec::from_array_len(buffer.clone(), 5);
    assert_eq!(v.as_slice(), buffer.as_slice());
}

#[test]
fn try_from_array_len_hands_the_buffer_back() {
    match ArrayVec::try_from_array_len(vec![1, 2], 3) {
        Err(buffer) => assert_eq!(buffer, vec![1, 2]),
        Ok(_) => panic!("length beyond the buffer must fail"),
    }
    match ArrayVec::try_from_array_len(vec![1, 2], 2) {
        Ok(v) => assert_eq!(v.as_slice(), &[1, 2]),
        Err(_) => panic!("length within the buffer must succeed"),
    }
}

#[test]
fn extend_from_slice_clones_in_order() {
    let mut v: ArrayVec<i32> = ArrayVec::new(6);
    v.push(0);
    v.extend_from_slice(&[1, 2, 3]);
    assert_eq!(v.as_slice(), &[0, 1, 2, 3]);
}

#[test]
fn resize_grows_with_clones_and_shrinks_by_truncation() {
    let mut v: ArrayVec<&str> = ArrayVec::new(10);
    v.push("hello");
    v.resize(3, "world");
    assert_eq!(v.as_slice(), &["hello", "world", "world"]);
    let mut w: ArrayVec<i32> = ArrayVec::new(10);
    for x in [1, 2, 3, 4] {
        w.push(x);
    }
    w.resize(2, 0);
    assert_eq!(w.as_slice(), &[1, 2]);
}

#[test]
fn resize_with_fills_from_the_generator() {
    let mut v: ArrayVec<i32> = ArrayVec::new(10);
    for x in [1, 2, 3] {
        v.push(x);
    }
    v.resize_with(5, || 0);
    assert_eq!(v.as_slice(), &[1, 2, 3, 0, 0]);
    v.resize_with(2, || 0);
    assert_eq!(v.as_slice(), &[1, 2]);
}

#[test]
fn retain_keeps_passing_elements_in_order() {
    let mut v: ArrayVec<i32> = ArrayVec::new(10);
    for x in [1, 1, 2, 3, 3, 4] {
        v.push(x);
    }
    v.retain(|x: &i32| *x % 2 == 0);
    assert_eq!(v.as_slice(), &[2, 4]);
}

#[test]
fn dedup_drops_consecutive_repeats() {
    let mut v: ArrayVec<i32> = ArrayVec::new(10);
    for x in [1, 1, 2, 3, 3, 3, 4, 1] {
        v.push(x);
    }
    v.dedup();
    assert_eq!(v.as_slice(), &[1, 2, 3, 4, 1]);
}

#[test]
fn dedup_by_uses_the_predicate() {
    let mut v: ArrayVec<i32> = ArrayVec::new(10);
    for x in [1, -1, 2, -2, -3, 7] {
        v.push(x);
    }
    v.dedup_by(|a: &i32, b: &i32| a.abs() == b.abs());
    assert_eq!(v.as_slice(), &[1, 2, -3, 7]);
}

#[test]
fn dedup_by_key_uses_the_selector() {
    let mut v: ArrayVec<i32> = ArrayVec::new(10);
    for x in [10, 16, 15, 54, 21] {
        v.push(x);
    }
    v.dedup_by_key(|x: &i32| *x / 10);
    assert_eq!(v.as_slice(), &[10, 54, 21]);
}
