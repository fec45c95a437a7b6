use tinyvec::ArrayVec;
use tinyvec::ArrayVecError;

#[test]
fn new_container_is_empty() {
    let v: ArrayVec<i32> = ArrayVec::new(8);
    assert_eq!(v.capacity(), 8);
    assert_eq!(v.len(), 0);
    assert!(v.is_empty());
    assert_eq!(v.as_slice(), &[] as &[i32]);
    assert_eq!(v.grab_spare_slice().len(), 8);
}

#[test]
fn push_pop_track_an_unbounded_vector() {
    let mut v: ArrayVec<i32> = ArrayVec::new(4);
    let mut model: Vec<i32> = Vec::new();
    let ops: [i32; 10] = [1, 2, -1, 3, 4, -1, -1, 5, -1, -1];
    for &op in ops.iter() {
        if op >= 0 {
            if model.len() < 4 {
                v.push(op);
                model.push(op);
            }
        } else {
            assert_eq!(v.pop(), model.pop());
        }
        assert_eq!(v.as_slice(), model.as_slice());
    }
}

#[test]
fn pop_on_empty_yields_nothing() {
    let mut v: ArrayVec<i32> = ArrayVec::new(2);
    assert_eq!(v.pop(), None);
    v.push(9);
    assert_eq!(v.pop(), Some(9));
    assert_eq!(v.pop(), None);
}

#[test]
fn try_push_beyond_capacity_reports_and_leaves_unchanged() {
    let mut v: ArrayVec<i32> = ArrayVec::new(2);
    assert!(v.try_push(1).is_ok());
    assert!(v.try_push(2).is_ok());
    match v.try_push(3) {
        Err((value, e)) => {
            assert_eq!(value, 3);
            assert_eq!(e, ArrayVecError::CapacityExceeded);
        }
        Ok(()) => panic!("push onto a full container must fail"),
    }
    assert_eq!(v.as_slice(), &[1, 2]);
    assert_eq!(v.capacity(), 2);
}

#[test]
fn insert_places_and_shifts() {
    let mut v: ArrayVec<i32> = ArrayVec::new(10);
    v.push(1);
    v.push(2);
    v.push(3);
    v.insert(1, 4);
    assert_eq!(v.as_slice(), &[1, 4, 2, 3]);
    assert_eq!(*v.get(1), 4);
    v.insert(4, 5);
    assert_eq!(v.as_slice(), &[1, 4, 2, 3, 5]);
}

#[test]
fn remove_returns_occupant_and_shifts() {
    let mut v: ArrayVec<i32> = ArrayVec::new(4);
    v.push(1);
    v.push(2);
    v.push(3);
    assert_eq!(v.remove(1), 2);
    assert_eq!(v.as_slice(), &[1, 3]);
    assert_eq!(v.remove(0), 1);
    assert_eq!(v.as_slice(), &[3]);
}

#[test]
fn swap_remove_swaps_in_the_last() {
    let mut v: ArrayVec<&str> = ArrayVec::new(4);
    v.push("foo");
    v.push("bar");
    v.push("quack");
    v.push("zap");
    assert_eq!(v.swap_remove(1), "bar");
    assert_eq!(v.as_slice(), &["foo", "zap", "quack"]);
    assert_eq!(v.swap_remove(0), "foo");
    assert_eq!(v.as_slice(), &["quack", "zap"]);
}

#[test]
fn drain_yields_range_and_excises_it() {
    let mut v: ArrayVec<i32> = ArrayVec::new(4);
    v.push(1);
    v.push(2);
    v.push(3);
    let mut d = v.drain(1, 3);
    assert_eq!(d.next(), Some(2));
    assert_eq!(d.next(), Some(3));
    assert_eq!(d.next(), None);
    let v = d.finish();
    assert_eq!(v.as_slice(), &[1]);
    assert_eq!(v.capacity(), 4);
}

#[test]
fn drain_released_early_still_excises_in_full() {
    let mut v: ArrayVec<i32> = ArrayVec::new(8);
    for x in [10, 20, 30, 40, 50] {
        v.push(x);
    }
    let mut d = v.drain(1, 4);
    assert_eq!(d.next(), Some(20));
    // released with two removals still outstanding
    let v = d.finish();
    assert_eq!(v.as_slice(), &[10, 50]);
}

#[test]
fn try_drain_tells_the_two_range_faults_apart() {
    let mut v: ArrayVec<i32> = ArrayVec::new(4);
    v.push(1);
    v.push(2);
    let (v, e) = match v.try_drain(2, 1) {
        Err(pair) => pair,
        Ok(_) => panic!("inverted range must fail"),
    };
    assert_eq!(e, ArrayVecError::InvalidRange);
    assert_eq!(v.as_slice(), &[1, 2]);
    let (v, e) = match v.try_drain(0, 3) {
        Err(pair) => pair,
        Ok(_) => panic!("range past the live region must fail"),
    };
    assert_eq!(e, ArrayVecError::IndexOutOfBounds);
    assert_eq!(v.as_slice(), &[1, 2]);
    let d = match v.try_drain(0, 1) {
        Ok(d) => d,
        Err(_) => panic!("valid range must succeed"),
    };
    let v = d.finish();
    assert_eq!(v.as_slice(), &[2]);
}

#[test]
fn split_off_moves_the_tail() {
    let mut v: ArrayVec<i32> = ArrayVec::new(4);
    v.push(1);
    v.push(2);
    v.push(3);
    let w = v.split_off(1);
    assert_eq!(v.as_slice(), &[1]);
    assert_eq!(w.as_slice(), &[2, 3]);
    assert_eq!(w.capacity(), 4);
}

#[test]
fn append_moves_everything_over() {
    let mut v: ArrayVec<i32> = ArrayVec::new(10);
    let mut w: ArrayVec<i32> = ArrayVec::new(10);
    for x in [1, 2, 3] {
        v.push(x);
    }
    for x in [4, 5, 6] {
        w.push(x);
    }
    v.append(&mut w);
    assert_eq!(v.as_slice(), &[1, 2, 3, 4, 5, 6]);
    assert_eq!(w.as_slice(), &[] as &[i32]);
    assert_eq!(w.capacity(), 10);
}

#[test]
fn try_append_overflow_mutates_neither() {
    let mut v: ArrayVec<i32> = ArrayVec::new(4);
    let mut w: ArrayVec<i32> = ArrayVec::new(4);
    for x in [1, 2, 3] {
        v.push(x);
    }
    for x in [4, 5] {
        w.push(x);
    }
    assert_eq!(v.try_append(&mut w), Err(ArrayVecError::CapacityExceeded));
    assert_eq!(v.as_slice(), &[1, 2, 3]);
    assert_eq!(w.as_slice(), &[4, 5]);
    let mut u: ArrayVec<i32> = ArrayVec::new(8);
    u.push(0);
    assert_eq!(u.try_append(&mut v), Ok(()));
    assert_eq!(u.as_slice(), &[0, 1, 2, 3]);
    assert!(v.is_empty());
}
