use range_retain::{backshift_holes, Bound, RetainRange};
use std::cell::Cell;
use std::rc::Rc;

#[test]
fn it_works() {
    let mut vec = vec![1, 2, 3, 4, 5];
    vec.retain_range(1..=3, |&x| x <= 2);
    assert_eq!(vec, [1, 2, 5]);
}

#[test]
fn exclusive_range_drops_inside_only() {
    let mut vec = vec![1, 2, 3, 4, 5];
    vec.retain_range(1..4, |&x| x <= 2);
    assert_eq!(vec, [1, 2, 5]);
}

#[test]
fn empty_range_is_a_no_op() {
    let mut vec = vec![1, 2, 3, 4, 5];
    vec.retain_range(0..0, |_| false);
    assert_eq!(vec, [1, 2, 3, 4, 5]);
    vec.retain_range(3..3, |_| false);
    assert_eq!(vec, [1, 2, 3, 4, 5]);
    vec.retain_range(5..5, |_| false);
    assert_eq!(vec, [1, 2, 3, 4, 5]);
}

#[test]
fn range_to_the_end_keeps_even() {
    let mut vec = vec![5, 4, 3, 2, 1];
    vec.retain_range(2..5, |&x| x % 2 == 0);
    assert_eq!(vec, [5, 4, 2]);
}

#[test]
fn unbounded_end_reaches_the_length() {
    let mut vec = vec![5, 4, 3, 2, 1];
    vec.retain_range(2.., |&x| x % 2 == 0);
    assert_eq!(vec, [5, 4, 2]);
}

#[test]
fn unbounded_start_begins_at_zero() {
    let mut vec = vec![1, 2, 3, 4, 5, 6];
    vec.retain_range(..3, |&x| x != 2);
    assert_eq!(vec, [1, 3, 4, 5, 6]);
    let mut vec = vec![1, 2, 3, 4, 5, 6];
    vec.retain_range(..=3, |&x| x % 2 == 1);
    assert_eq!(vec, [1, 3, 5, 6]);
}

#[test]
fn full_range_matches_plain_retain() {
    let mut a = vec![7, 1, 8, 2, 9, 3, 10];
    let mut b = a.clone();
    let mut c = a.clone();
    a.retain_range(.., |&x| x > 5);
    b.retain(|&x| x > 5);
    c.retain_range(0..7, |&x| x > 5);
    assert_eq!(a, [7, 8, 9, 10]);
    assert_eq!(a, b);
    assert_eq!(c, b);
}

#[test]
fn always_true_leaves_the_vector_unchanged() {
    let mut vec = vec![3, 1, 4, 1, 5, 9, 2, 6];
    vec.retain_range(2..6, |_| true);
    assert_eq!(vec, [3, 1, 4, 1, 5, 9, 2, 6]);
    vec.retain_range(.., |_| true);
    assert_eq!(vec, [3, 1, 4, 1, 5, 9, 2, 6]);
}

#[test]
fn always_false_drops_the_whole_range() {
    let mut vec = vec![1, 2, 3, 4, 5, 6];
    vec.retain_range(1..5, |_| false);
    assert_eq!(vec, [1, 6]);
    assert_eq!(vec.len(), 6 - 4);
}

#[test]
fn drop_before_keep_moves_later_survivors_down() {
    let mut vec = vec![10, 11, 12, 13, 14, 15, 16, 17];
    vec.retain_range(1..7, |&x| x % 3 != 0);
    assert_eq!(vec, [10, 11, 13, 14, 16, 17]);
}

#[test]
fn explicit_bounds_pair() {
    let mut vec = vec![0, 1, 2, 3, 4, 5];
    vec.retain_range((Bound::Excluded(0), Bound::Included(3)), |&x| x == 2);
    assert_eq!(vec, [0, 2, 4, 5]);
    let mut vec = vec![0, 1, 2, 3, 4, 5];
    vec.retain_range((Bound::Unbounded, Bound::Unbounded), |&x| x >= 4);
    assert_eq!(vec, [4, 5]);
}

#[test]
fn predicate_sees_each_in_range_element_once_in_order() {
    let mut vec = vec![9, 8, 7, 6, 5, 4];
    let mut seen = Vec::new();
    vec.retain_range(1..5, |&x| {
        seen.push(x);
        x % 2 == 0
    });
    assert_eq!(seen, [8, 7, 6, 5]);
    assert_eq!(vec, [9, 8, 6, 4]);
}

#[test]
fn mut_predicate_changes_kept_elements() {
    let mut vec = vec![1, 2, 3, 4, 5];
    vec.retain_range_mut(1..4, |x| {
        *x *= 10;
        *x <= 20
    });
    assert_eq!(vec, [1, 20, 5]);
}

#[test]
fn mut_predicate_on_empty_range() {
    let mut vec = vec![1, 2, 3];
    vec.retain_range_mut(1..1, |x| {
        *x = 0;
        false
    });
    assert_eq!(vec, [1, 2, 3]);
}

#[test]
fn mut_predicate_full_range() {
    let mut vec = vec![String::from("a"), String::from("bb"), String::from("ccc")];
    vec.retain_range_mut(.., |s| {
        s.push('!');
        s.len() != 3
    });
    assert_eq!(vec, ["a!", "ccc!"]);
}

struct Counted {
    id: u32,
    drops: Rc<Cell<u32>>,
}

impl Drop for Counted {
    fn drop(&mut self) {
        self.drops.set(self.drops.get() + 1);
    }
}

#[test]
fn each_discarded_element_is_dropped_once() {
    let drops = Rc::new(Cell::new(0));
    let mut vec: Vec<Counted> = (0..8).map(|id| Counted { id, drops: drops.clone() }).collect();
    vec.retain_range(2..7, |c| c.id % 2 == 0);
    assert_eq!(drops.get(), 2);
    let ids: Vec<u32> = vec.iter().map(|c| c.id).collect();
    assert_eq!(ids, [0, 1, 2, 4, 6, 7]);
    drop(vec);
    assert_eq!(drops.get(), 8);
}

#[test]
fn backshift_after_a_stop_keeps_unvisited_elements() {
    // Kept 1, 2; two holes; 5 and 6 not looked at yet.
    let mut vec = vec![1, 2, 90, 91, 5, 6];
    backshift_holes(&mut vec, 4, 2);
    assert_eq!(vec, [1, 2, 5, 6]);
}

#[test]
fn backshift_without_holes_changes_nothing() {
    let mut vec = vec![1, 2, 3];
    backshift_holes(&mut vec, 2, 0);
    assert_eq!(vec, [1, 2, 3]);
}

#[test]
fn backshift_at_the_end_truncates() {
    let mut vec = vec![1, 2, 3, 4];
    backshift_holes(&mut vec, 4, 3);
    assert_eq!(vec, [1]);
}

#[test]
fn exhausted_inclusive_range_selects_nothing_at_its_end() {
    let mut range = 1..=3;
    while range.next().is_some() {}
    let mut vec = vec![1, 2, 3, 4, 5];
    vec.retain_range(range, |_| false);
    assert_eq!(vec, [1, 2, 3, 4, 5]);
}

#[test]
fn mut_predicate_always_false_empties_the_range() {
    let mut vec = vec![1, 2, 3];
    vec.retain_range_mut(0..3, |_| false);
    assert_eq!(vec.len(), 0);
}
