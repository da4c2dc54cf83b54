use vdom_arena::reload_stack::PopVec;

#[test]
fn searches_and_works() {
    let mut stack = PopVec::new(vec![1, 2, 3, 4, 5]);

    assert_eq!(stack.pop_where(|x| *x == 3), Some(3));
    assert_eq!(stack.pop_where(|x| *x == 1), Some(1));
    assert_eq!(stack.pop_where(|x| *x == 5), Some(5));
    assert_eq!(stack.pop_where(|x| *x == 2), Some(2));
    assert_eq!(stack.pop_where(|x| *x == 4), Some(4));
    assert_eq!(stack.pop_where(|x| *x == 4), None);

    assert!(stack.is_empty());
}

#[test]
fn free_optimization_works() {
    let mut stack = PopVec::new(vec![0, 1, 2, 3, 4, 5]);

    let _ = stack.remove(0);
    assert_eq!(stack.next_free(), 1);

    let _ = stack.remove(1);
    assert_eq!(stack.next_free(), 2);

    let _ = stack.remove(4);
    assert_eq!(stack.next_free(), 2);

    let _ = stack.remove(2);
    assert_eq!(stack.next_free(), 3);
}

#[test]
fn highest_score_picks_the_best() {
    let stack = PopVec::new(vec![10usize, 40, 20]);
    assert_eq!(stack.highest_score(|x| *x), Some((1, 40)));
}

#[test]
fn highest_score_of_zeros_is_none() {
    let stack = PopVec::new(vec![0usize, 0]);
    assert_eq!(stack.highest_score(|x| *x), None);
}

#[test]
fn highest_score_shortcircuits_on_max() {
    let stack = PopVec::new(vec![usize::MAX, 7]);
    assert_eq!(stack.highest_score(|x| *x), Some((0, usize::MAX)));
}

#[test]
fn highest_score_skips_removed_prefix() {
    let mut stack = PopVec::new(vec![9usize, 1, 2]);
    let _ = stack.remove(0);
    assert_eq!(stack.highest_score(|x| *x), Some((2, 2)));
}

#[test]
fn raw_len_counts_slots_not_values() {
    let mut stack = PopVec::new(vec![1, 2]);
    let _ = stack.remove(0);
    assert_eq!(stack.raw_len(), 2);
    assert!(!stack.is_empty());
}

#[test]
fn remove_hands_the_value_back_once() {
    let mut stack = PopVec::new(vec![7, 8]);
    assert_eq!(stack.remove(1), Some(8));
    assert_eq!(stack.remove(1), None);
}
