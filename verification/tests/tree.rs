use ordered_collections::{BinarySearchTree, TreeNode};

#[test]
fn test_insert_and_search() {
    let mut bst = BinarySearchTree::new();

    assert_eq!(bst.search(1), false);

    bst.insert(5);
    bst.insert(3);
    bst.insert(7);
    bst.insert(2);
    bst.insert(4);

    assert_eq!(bst.search(5), true);
    assert_eq!(bst.search(3), true);
    assert_eq!(bst.search(7), true);
    assert_eq!(bst.search(2), true);
    assert_eq!(bst.search(4), true);

    assert_eq!(bst.search(1), false);
    assert_eq!(bst.search(6), false);
}

#[test]
fn test_insert_duplicate() {
    let mut bst = BinarySearchTree::new();

    bst.insert(1);
    bst.insert(1);

    assert_eq!(bst.search(1), true);

    match bst.root {
        Some(ref node) => {
            assert!(node.left.is_none());
            assert!(node.right.is_none());
        }
        None => panic!("Root should not be None after insertion"),
    }
}

fn count_nodes(link: &Option<Box<TreeNode<i32>>>) -> usize {
    match link {
        None => 0,
        Some(node) => 1 + count_nodes(&node.left) + count_nodes(&node.right),
    }
}

fn in_order(link: &Option<Box<TreeNode<i32>>>, out: &mut Vec<i32>) {
    if let Some(node) = link {
        in_order(&node.left, out);
        out.push(node.value);
        in_order(&node.right, out);
    }
}

#[test]
fn empty_tree_has_no_root_and_finds_nothing() {
    let bst: BinarySearchTree<i32> = BinarySearchTree::new();
    assert!(bst.root.is_none());
    assert_eq!(bst.search(0), false);
    assert_eq!(bst.search(i32::MIN), false);
    assert_eq!(bst.search(i32::MAX), false);
}

#[test]
fn new_node_is_a_leaf() {
    let node = TreeNode::new(9u8);
    assert_eq!(node.value, 9);
    assert!(node.left.is_none());
    assert!(node.right.is_none());
}

#[test]
fn values_land_where_the_comparisons_lead() {
    let mut bst = BinarySearchTree::new();
    for v in [5, 3, 7, 2, 4] {
        bst.insert(v);
    }
    let root = bst.root.as_ref().unwrap();
    assert_eq!(root.value, 5);
    let left = root.left.as_ref().unwrap();
    let right = root.right.as_ref().unwrap();
    assert_eq!(left.value, 3);
    assert_eq!(right.value, 7);
    assert_eq!(left.left.as_ref().unwrap().value, 2);
    assert_eq!(left.right.as_ref().unwrap().value, 4);
    assert!(right.left.is_none());
    assert!(right.right.is_none());
}

#[test]
fn node_insert_agrees_with_tree_insert() {
    let mut bst = BinarySearchTree::new();
    let mut node = TreeNode::new(5);
    bst.insert(5);
    for v in [8, 1, 6, 9, 1, 3, 8] {
        bst.insert(v);
        node.insert(v);
    }
    let by_tree = format!("{:?}", bst.root.as_ref().unwrap());
    let by_node = format!("{:?}", node);
    assert_eq!(by_tree, by_node);
}

#[test]
fn membership_is_exactly_what_was_inserted() {
    let inserted = [12, -4, 7, 7, 0, 33, -4, 18, 12, 5];
    let mut bst = BinarySearchTree::new();
    for v in inserted {
        bst.insert(v);
    }
    for v in -10..40 {
        assert_eq!(bst.search(v), inserted.contains(&v));
    }
}

#[test]
fn duplicates_add_no_node() {
    let mut bst = BinarySearchTree::new();
    for v in [4, 2, 6, 2, 4, 6, 6, 1] {
        bst.insert(v);
    }
    assert_eq!(count_nodes(&bst.root), 4);
    let before = format!("{:?}", bst);
    bst.insert(2);
    assert_eq!(format!("{:?}", bst), before);
}

#[test]
fn in_order_walk_is_strictly_increasing() {
    let mut bst = BinarySearchTree::new();
    for v in [50, 20, 80, 10, 30, 70, 90, 20, 60, 85, 10] {
        bst.insert(v);
    }
    let mut walked = Vec::new();
    in_order(&bst.root, &mut walked);
    assert_eq!(walked, vec![10, 20, 30, 50, 60, 70, 80, 85, 90]);
}

#[test]
fn ascending_insertions_make_a_right_spine() {
    let mut bst = BinarySearchTree::new();
    for v in 1..=4 {
        bst.insert(v);
    }
    let mut link = &bst.root;
    let mut expected = 1;
    while let Some(node) = link {
        assert_eq!(node.value, expected);
        assert!(node.left.is_none());
        expected += 1;
        link = &node.right;
    }
    assert_eq!(expected, 5);
}

#[test]
fn tree_of_strings() {
    let mut bst = BinarySearchTree::new();
    for word in ["pear", "apple", "quince", "apple"] {
        bst.insert(word.to_string());
    }
    assert!(bst.search("apple".to_string()));
    assert!(bst.search("quince".to_string()));
    assert!(!bst.search("plum".to_string()));
}
