#[test]
fn first_basics() {
    let mut tree = dungeon::bst::BST::new();

    // Check empty list behaves right
    assert_eq!(tree.search(1), false);

    // Populate list
    assert_eq!(tree.insert(1), true);
    assert_eq!(tree.insert(2), true);
    assert_eq!(tree.insert(3), true);

    // Check search
    assert_eq!(tree.search(1), true);
    assert_eq!(tree.search(2), true);
    assert_eq!(tree.search(3), true);
    assert_eq!(tree.search(4), false);

    // Check repeatly insertion
    assert_eq!(tree.insert(1), false);
}

#[test]
fn second_basics() {
    let mut tree = dungeon::bst_iter::BST::new();

    // Check empty list behaves right
    assert_eq!(tree.search(1), false);

    // Populate list
    assert_eq!(tree.insert(1), true);
    assert_eq!(tree.insert(2), true);
    assert_eq!(tree.insert(3), true);

    // Check search
    assert_eq!(tree.search(1), true);
    assert_eq!(tree.search(2), true);
    assert_eq!(tree.search(3), true);
    assert_eq!(tree.search(4), false);

    // Check repeatly insertion
    assert_eq!(tree.insert(1), false);
}

#[test]
fn test_into_iter() {
    let mut tree = dungeon::bst_iter::BST::new();

    // Populate list
    assert_eq!(tree.insert(1), true);
    assert_eq!(tree.insert(2), true);
    assert_eq!(tree.insert(3), true);

    // Check into_iterator
    let mut iter = tree.into_iter();
    assert_eq!(iter.next(), Some(1));
    assert_eq!(iter.next(), Some(2));
    assert_eq!(iter.next(), Some(3));
    assert_eq!(iter.next(), None);
}

#[test]
fn test_iter() {
    let mut tree = dungeon::bst_iter::BST::new();

    // Populate list
    assert_eq!(tree.insert(1), true);
    assert_eq!(tree.insert(2), true);
    assert_eq!(tree.insert(3), true);

    // Check into_iterator
    {
        let mut iter = tree.iter();
        assert_eq!(iter.next(), Some(&1));
        assert_eq!(iter.next(), Some(&2));
        assert_eq!(iter.next(), Some(&3));
        assert_eq!(iter.next(), None);
    }

    // Check repeatly insertion
    assert_eq!(tree.insert(1), false);
}

#[test]
fn test_iter_mut() {
    let mut tree = dungeon::bst_iter::BST::new();

    // Populate list
    assert_eq!(tree.insert(1), true);
    assert_eq!(tree.insert(2), true);
    assert_eq!(tree.insert(3), true);

    // Check into_iterator
    {
        let mut iter = tree.iter_mut();
        assert_eq!(iter.next(), Some(&mut 1));
        assert_eq!(iter.next(), Some(&mut 2));

        let elem = iter.next(); // it should be 3
        assert_eq!(elem, Some(&mut 3));

        // change the value to 4
        if let Some(value) = elem {
            *value = 4;
        }
    }

    // Check insertion
    assert_eq!(tree.insert(1), false);
    assert_eq!(tree.insert(3), true);
    assert_eq!(tree.insert(4), false);
}
