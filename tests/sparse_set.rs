use ecs::components::SparseSet;

#[test]
fn add_new_element() {
    let mut set = SparseSet::new(10);

    set.add(5, 1);

    assert_eq!(set.index_of(5).unwrap(), 0);
    assert_eq!(set.dense()[0].item, 1);
}

#[test]
fn add_element_which_already_exists() {
    let mut set = SparseSet::new(10);

    set.add(5, 1);
    set.add(5, 2);

    assert_eq!(set.index_of(5).unwrap(), 0);
    assert_eq!(set.dense()[0].item, 2);
}

#[test]
fn contains_returns_true_if_id_in_sparse() {
    let mut set = SparseSet::new(10);

    set.add(0, 1);

    assert_eq!(set.contains(0), true);
}

#[test]
fn contains_returns_false_if_id_not_in_sparse() {
    let mut set = SparseSet::new(2);

    set.add(0, 1);

    assert_eq!(set.contains(1), false);
}

#[test]
fn clear_removes_values_from_dense_and_resets_state() {
    let mut set = SparseSet::new(10);

    set.add(0, 1);
    set.add(1, 2);
    set.clear();

    assert_eq!(set.contains(0), false);
    assert_eq!(set.contains(1), false);
    assert_eq!(set.dense().is_empty(), true);
}

#[test]
fn delete_does_nothing_when_not_exists() {
    let mut set = SparseSet::new(2);

    set.add(0, 1);

    assert_eq!(set.delete(1).is_none(), true);
}

#[test]
fn delete_when_only_one_element() {
    let mut set = SparseSet::new(10);

    set.add(4, 1);

    assert_eq!(set.delete(4).unwrap(), 1);
    assert_eq!(set.contains(4), false);
}

#[test]
fn delete_swaps_with_last_element() {
    let mut set = SparseSet::new(10);

    set.add(4, 1);
    set.add(7, 2);

    assert_eq!(set.delete(4).unwrap(), 1);
    assert_eq!(set.contains(4), false);
    assert_eq!(*set.get(7).unwrap(), 2);
    assert_eq!(set.index_of(7).unwrap(), 0);
}

#[test]
fn get_mut_returns_null_when_not_present() {
    let mut set = SparseSet::new(2);

    set.add(0, 1);

    assert_eq!(set.get_mut(1).is_none(), true);
}

#[test]
fn get_mut_returns_mutable_ref_when_present() {
    let mut set = SparseSet::new(1);

    set.add(0, 1);

    assert_eq!(*set.get_mut(0).unwrap(), 1);
}

#[test]
fn get_returns_null_when_not_present() {
    let mut set = SparseSet::new(2);

    set.add(0, 1);

    assert_eq!(set.get(1).is_none(), true);
}

#[test]
fn get_returns_ref_when_present() {
    let mut set = SparseSet::new(1);

    set.add(0, 1);

    assert_eq!(*set.get(0).unwrap(), 1);
}

#[test]
fn size_returns_current_set_size() {
    let mut set = SparseSet::new(10);

    set.add(0, 1);
    set.add(1, 2);

    assert_eq!(set.size(), 2);
}

#[test]
fn add_then_get_and_size() {
    let mut set = SparseSet::new(10);

    set.add(5, 1);

    assert_eq!(set.get(5), Some(&1));
    assert_eq!(set.contains(5), true);
    assert_eq!(set.size(), 1);
}

#[test]
fn re_adding_keeps_size_and_takes_newest_value() {
    let mut set = SparseSet::new(10);

    set.add(5, 1);
    set.add(5, 2);

    assert_eq!(set.size(), 1);
    assert_eq!(set.get(5), Some(&2));
}

#[test]
fn delete_keeps_other_values() {
    let mut set = SparseSet::new(10);

    set.add(1, 10);
    set.add(2, 20);
    set.add(3, 30);

    assert_eq!(set.delete(2), Some(20));
    assert_eq!(set.contains(2), false);
    assert_eq!(set.size(), 2);
    assert_eq!(set.get(1), Some(&10));
    assert_eq!(set.get(3), Some(&30));
    assert_eq!(set.index_of(3), Some(1));
}

#[test]
fn delete_last_entry_moves_nothing() {
    let mut set = SparseSet::new(10);

    set.add(4, 1);
    set.add(7, 2);

    assert_eq!(set.delete(7), Some(2));
    assert_eq!(set.index_of(4), Some(0));
    assert_eq!(set.size(), 1);
}

#[test]
fn delete_absent_leaves_set_unchanged() {
    let mut set = SparseSet::new(3);

    set.add(0, 5);

    assert_eq!(set.delete(2), None);
    assert_eq!(set.delete(2), None);
    assert_eq!(set.size(), 1);
    assert_eq!(set.get(0), Some(&5));
}

#[test]
fn clear_then_reuse() {
    let mut set = SparseSet::new(4);

    set.add(3, 1);
    set.add(0, 2);
    set.clear();

    assert_eq!(set.size(), 0);
    assert_eq!(set.get(3), None);
    assert_eq!(set.index_of(0), None);

    set.add(3, 9);
    assert_eq!(set.index_of(3), Some(0));
    assert_eq!(set.get(3), Some(&9));
}

#[test]
fn largest_id_is_accepted() {
    let mut set = SparseSet::new(1);

    set.add(0, 1);

    assert_eq!(set.get(0), Some(&1));
    assert_eq!(set.size(), 1);
}

#[test]
fn get_mut_writes_through() {
    let mut set = SparseSet::new(3);

    set.add(2, 1);
    *set.get_mut(2).unwrap() = 8;

    assert_eq!(set.get(2), Some(&8));
    assert_eq!(set.size(), 1);
}

#[test]
fn empty_set_holds_nothing() {
    let set: SparseSet<u8> = SparseSet::new(5);

    assert_eq!(set.size(), 0);
    assert_eq!(set.contains(4), false);
    assert_eq!(set.get(0), None);
}

#[test]
#[should_panic]
fn crash_when_adding_more_than_capacity_would_fit() {
    let mut set = SparseSet::new(1);

    set.add(0, 1);
    set.add(1, 2);
}
