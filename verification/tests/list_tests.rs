use dlist::list::List;

#[test]
fn front() {
    let mut list = List::new();

    // Check empty list behaves right
    assert_eq!(list.pop_front(), None);

    // Populate list
    list.push_front(1);
    list.push_front(2);
    list.push_front(3);

    // Check normal removal
    assert_eq!(list.pop_front(), Some(3));
    assert_eq!(list.pop_front(), Some(2));

    // Push some more just to make sure nothing's corrupted
    list.push_front(4);
    list.push_front(5);

    // Check normal removal
    assert_eq!(list.pop_front(), Some(5));
    assert_eq!(list.pop_front(), Some(4));

    // Check exhaustion
    assert_eq!(list.pop_front(), Some(1));
    assert_eq!(list.pop_front(), None);
}

#[test]
fn back() {
    let mut list = List::new();

    // Check empty list behaves right
    assert_eq!(list.pop_back(), None);

    // Populate list
    list.push_back(1);
    list.push_back(2);
    list.push_back(3);

    // Check normal removal
    assert_eq!(list.pop_back(), Some(3));
    assert_eq!(list.pop_back(), Some(2));

    // Push some more just to make sure nothing's corrupted
    list.push_back(4);
    list.push_back(5);

    // Check normal removal
    assert_eq!(list.pop_back(), Some(5));
    assert_eq!(list.pop_back(), Some(4));

    // Check exhaustion
    assert_eq!(list.pop_back(), Some(1));
    assert_eq!(list.pop_back(), None);
}

#[test]
fn fresh_list_both_ends_absent() {
    let mut list: List<i32> = List::new();
    assert_eq!(list.pop_front(), None);
    assert_eq!(list.pop_back(), None);
}

#[test]
fn default_is_empty() {
    let mut list: List<i32> = List::default();
    assert_eq!(list.pop_front(), None);
    assert_eq!(list.pop_back(), None);
}

#[test]
fn single_element_clears_both_ends() {
    let mut list = List::new();
    list.push_back(1);
    assert_eq!(list.pop_front(), Some(1));
    assert_eq!(list.pop_front(), None);
    assert_eq!(list.pop_back(), None);
}

#[test]
fn queue_back_in_front_out() {
    let mut list = List::new();
    list.push_back(1);
    list.push_back(2);
    assert_eq!(list.pop_front(), Some(1));
    list.push_back(3);
    assert_eq!(list.pop_front(), Some(2));
    assert_eq!(list.pop_front(), Some(3));
    assert_eq!(list.pop_front(), None);
}

#[test]
fn queue_front_in_back_out() {
    let mut list = List::new();
    list.push_front(1);
    list.push_front(2);
    assert_eq!(list.pop_back(), Some(1));
    list.push_front(3);
    assert_eq!(list.pop_back(), Some(2));
    assert_eq!(list.pop_back(), Some(3));
    assert_eq!(list.pop_back(), None);
}

#[test]
fn empty_pops_leave_no_trace() {
    let mut list = List::new();
    assert_eq!(list.pop_front(), None);
    assert_eq!(list.pop_back(), None);
    list.push_front(7);
    assert_eq!(list.pop_back(), Some(7));
    assert_eq!(list.pop_front(), None);
}

#[test]
fn drained_behaves_like_fresh() {
    let mut drained = List::new();
    drained.push_front(10);
    drained.push_back(20);
    drained.push_front(30);
    while drained.pop_front().is_some() {}
    assert_eq!(drained.pop_front(), None);
    assert_eq!(drained.pop_back(), None);

    let mut fresh = List::new();
    for list in [&mut drained, &mut fresh] {
        list.push_back(1);
        list.push_front(2);
        list.push_back(3);
        assert_eq!(list.pop_front(), Some(2));
        assert_eq!(list.pop_back(), Some(3));
        assert_eq!(list.pop_back(), Some(1));
        assert_eq!(list.pop_back(), None);
    }
}

#[test]
fn mixed_ends_keep_order() {
    let mut list = List::new();
    list.push_back(2);
    list.push_front(1);
    list.push_back(3);
    assert_eq!(list.pop_front(), Some(1));
    assert_eq!(list.pop_back(), Some(3));
    assert_eq!(list.pop_front(), Some(2));
    assert_eq!(list.pop_front(), None);
}

#[test]
fn generic_elements() {
    let mut list = List::new();
    list.push_back(String::from("a"));
    list.push_back(String::from("b"));
    assert_eq!(list.pop_front(), Some(String::from("a")));
    assert_eq!(list.pop_back(), Some(String::from("b")));
    assert_eq!(list.pop_front(), None);
}

#[test]
fn teardown_of_long_list() {
    let mut list = List::new();
    for i in 0..100_000u32 {
        list.push_back(i);
    }
    // Dropping the handle must not recurse through the chain.
    drop(list);
}

#[test]
fn long_list_drains_in_order() {
    let mut list = List::new();
    for i in 0..100_000u32 {
        list.push_back(i);
    }
    for i in 0..100_000u32 {
        assert_eq!(list.pop_front(), Some(i));
    }
    assert_eq!(list.pop_front(), None);
}

#[test]
fn retired_slots_are_reused() {
    let mut list = List::new();
    for round in 0..3u32 {
        for i in 0..1_000u32 {
            list.push_front(round * 1_000 + i);
        }
        for i in (0..1_000u32).rev() {
            assert_eq!(list.pop_front(), Some(round * 1_000 + i));
        }
        assert_eq!(list.pop_front(), None);
    }
}
