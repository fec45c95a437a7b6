use tinyvec::ArrayVec;
use tinyvec::ArrayVecIterator;

fn sample() -> ArrayVec<i32> {
    let mut v: ArrayVec<i32> = ArrayVec::new(6);
    for x in [1, 2, 3, 4] {
        v.push(x);
    }
    v
}

#[test]
fn into_iter_yields_live_elements_in_order() {
    let mut it: ArrayVecIterator<i32> = sample().into_iter();
    assert_eq!(it.next(), Some(1));
    assert_eq!(it.next(), Some(2));
    assert_eq!(it.next(), Some(3));
    assert_eq!(it.next(), Some(4));
    assert_eq!(it.next(), None);
    assert_eq!(it.next(), None);
}

#[test]
fn size_hint_and_count_are_exact() {
    let mut it = sample().into_iter();
    assert_eq!(it.size_hint(), (4, Some(4)));
    let _ = it.next();
    assert_eq!(it.size_hint(), (3, Some(3)));
    assert_eq!(it.count(), 3);
}

#[test]
fn last_yields_the_final_element() {
    let it = sample().into_iter();
    assert_eq!(it.last(), Some(4));
    let empty: ArrayVec<i32> = ArrayVec::new(3);
    assert_eq!(empty.into_iter().last(), None);
}

#[test]
fn nth_skips_and_never_reads_past_the_end() {
    let mut it = sample().into_iter();
    assert_eq!(it.nth(0), Some(1));
    assert_eq!(it.nth(1), Some(3));
    assert_eq!(it.nth(5), None);
    assert_eq!(it.next(), None);
}

#[test]
fn string_elements_move_out() {
    let mut v: ArrayVec<String> = ArrayVec::new(3);
    v.push(String::from("a"));
    v.push(String::from("b"));
    let mut it = v.into_iter();
    assert_eq!(it.next(), Some(String::from("a")));
    assert_eq!(it.next(), Some(String::from("b")));
    assert_eq!(it.next(), None);
}
