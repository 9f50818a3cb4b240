use kernel::error::Error;
use kernel::maple_tree::flags;
use kernel::maple_tree::Flags;
use kernel::maple_tree::MapleTree;

#[test]
fn module_example_insert_range_then_remove() {
    let mut mtree: MapleTree<Box<i32>> = MapleTree::new(flags::DEFAULT_TREE);
    let mut guard = mtree.lock();
    let entry = Box::new(5);
    assert!(guard.insert_range(0, 10, entry).is_ok());

    for i in 0..10 {
        assert_eq!(guard.get(i), Some(&Box::new(5)));
    }

    assert_eq!(guard.remove(2), Some(Box::new(5)));

    for i in 0..10 {
        assert_eq!(guard.get(i), None);
    }
}

#[test]
fn range_ends_are_inclusive() {
    let mut tree: MapleTree<u32> = MapleTree::new(flags::DEFAULT_TREE);
    let mut guard = tree.lock();
    assert_eq!(guard.insert_range(10, 20, 1), Ok(()));
    assert_eq!(guard.get(9), None);
    assert_eq!(guard.get(10), Some(&1));
    assert_eq!(guard.get(20), Some(&1));
    assert_eq!(guard.get(21), None);
}

#[test]
fn overlapping_insert_is_refused_and_hands_the_value_back() {
    let mut tree: MapleTree<String> = MapleTree::new(flags::DEFAULT_TREE);
    let mut guard = tree.lock();
    assert!(guard.insert_range(10, 20, String::from("a")).is_ok());
    assert_eq!(
        guard.insert_range(20, 30, String::from("b")),
        Err((String::from("b"), Error::EEXIST))
    );
    assert_eq!(
        guard.insert_range(0, 10, String::from("c")),
        Err((String::from("c"), Error::EEXIST))
    );
    assert_eq!(
        guard.insert_range(12, 13, String::from("d")),
        Err((String::from("d"), Error::EEXIST))
    );
    assert_eq!(
        guard.insert_range(0, 100, String::from("e")),
        Err((String::from("e"), Error::EEXIST))
    );
    assert_eq!(guard.insert(15, String::from("f")), Err((String::from("f"), Error::EEXIST)));
    assert_eq!(guard.get(15), Some(&String::from("a")));
    assert_eq!(guard.get(25), None);
    assert_eq!(guard.get(5), None);
}

#[test]
fn reversed_range_is_refused() {
    let mut tree: MapleTree<u8> = MapleTree::new(flags::DEFAULT_TREE);
    let mut guard = tree.lock();
    let err = guard.insert_range(5, 4, 9).unwrap_err();
    assert_eq!(err, (9, Error::EINVAL));
    assert_eq!(err.1.to_errno(), -22);
    assert_eq!(guard.get(4), None);
    assert_eq!(guard.get(5), None);
}

#[test]
fn adjacent_ranges_are_separate() {
    let mut tree: MapleTree<u32> = MapleTree::new(flags::ALLOC_TREE);
    let mut guard = tree.lock();
    assert_eq!(guard.insert_range(5, 9, 2), Ok(()));
    assert_eq!(guard.insert_range(0, 4, 1), Ok(()));
    assert_eq!(guard.insert_range(10, 14, 3), Ok(()));
    assert_eq!(guard.get(4), Some(&1));
    assert_eq!(guard.get(5), Some(&2));
    assert_eq!(guard.get(14), Some(&3));
    assert_eq!(guard.remove(7), Some(2));
    assert_eq!(guard.get(4), Some(&1));
    assert_eq!(guard.get(5), None);
    assert_eq!(guard.get(9), None);
    assert_eq!(guard.get(10), Some(&3));
}

#[test]
fn insert_maps_a_single_index() {
    let mut tree: MapleTree<u64> = MapleTree::new(flags::DEFAULT_TREE);
    let mut guard = tree.lock();
    assert_eq!(guard.insert(42, 7), Ok(()));
    assert_eq!(guard.get(41), None);
    assert_eq!(guard.get(42), Some(&7));
    assert_eq!(guard.get(43), None);
    assert_eq!(guard.insert(42, 8), Err((8, Error::EEXIST)));
    assert_eq!(guard.insert(43, 8), Ok(()));
    assert_eq!(guard.get(43), Some(&8));
}

#[test]
fn extreme_indices() {
    let mut tree: MapleTree<u8> = MapleTree::new(flags::DEFAULT_TREE);
    let mut guard = tree.lock();
    assert_eq!(guard.insert(usize::MAX, 1), Ok(()));
    assert_eq!(guard.insert(0, 2), Ok(()));
    assert_eq!(guard.insert_range(1, usize::MAX, 3), Err((3, Error::EEXIST)));
    assert_eq!(guard.insert_range(1, usize::MAX - 1, 3), Ok(()));
    assert_eq!(guard.get(usize::MAX), Some(&1));
    assert_eq!(guard.get(0), Some(&2));
    assert_eq!(guard.get(usize::MAX / 2), Some(&3));
}

#[test]
fn remove_of_an_unmapped_index_changes_nothing() {
    let mut tree: MapleTree<u32> = MapleTree::new(flags::DEFAULT_TREE);
    let mut guard = tree.lock();
    assert_eq!(guard.remove(3), None);
    assert_eq!(guard.insert_range(10, 20, 1), Ok(()));
    assert_eq!(guard.remove(9), None);
    assert_eq!(guard.remove(21), None);
    assert_eq!(guard.get(10), Some(&1));
    assert_eq!(guard.get(20), Some(&1));
}

#[test]
fn remove_undoes_insert() {
    let mut tree: MapleTree<u32> = MapleTree::new(flags::DEFAULT_TREE);
    let mut guard = tree.lock();
    assert_eq!(guard.insert_range(0, 3, 1), Ok(()));
    assert_eq!(guard.insert_range(8, 9, 2), Ok(()));
    assert_eq!(guard.insert_range(4, 7, 3), Ok(()));
    assert_eq!(guard.remove(6), Some(3));
    for i in 0..4 {
        assert_eq!(guard.get(i), Some(&1));
    }
    for i in 4..8 {
        assert_eq!(guard.get(i), None);
    }
    assert_eq!(guard.get(8), Some(&2));
    assert_eq!(guard.get(9), Some(&2));
    assert_eq!(guard.insert_range(4, 7, 4), Ok(()));
    assert_eq!(guard.get(5), Some(&4));
}

#[test]
fn get_mut_changes_the_whole_range() {
    let mut tree: MapleTree<u32> = MapleTree::new(flags::DEFAULT_TREE);
    let mut guard = tree.lock();
    assert_eq!(guard.insert_range(100, 199, 1), Ok(()));
    assert!(guard.get_mut(99).is_none());
    *guard.get_mut(150).unwrap() = 2;
    assert_eq!(guard.get(100), Some(&2));
    assert_eq!(guard.get(199), Some(&2));
    assert_eq!(guard.get(200), None);
}

#[test]
fn values_outlive_the_guard() {
    let mut tree: MapleTree<u32> = MapleTree::new(flags::DEFAULT_TREE);
    {
        let mut guard = tree.lock();
        assert_eq!(guard.insert_range(1, 2, 11), Ok(()));
    }
    let guard = tree.lock();
    assert_eq!(guard.get(2), Some(&11));
}

#[test]
fn flag_bits() {
    assert_eq!(flags::DEFAULT_TREE.as_raw(), 0);
    assert_eq!(flags::ALLOC_TREE.as_raw(), 1);
    assert_eq!(Flags::ALLOC_TREE, flags::ALLOC_TREE);
    assert!(flags::DEFAULT_TREE != flags::ALLOC_TREE);
}
