use scuttle_db::btree::{BTree, BTreeNode};

#[test]
fn test_empty_btree_creation() {
    let tree: BTree<i32, String> = BTree::new(3);
    assert!(tree.is_empty());
    assert_eq!(tree.min_degree, 3);
}

#[test]
fn test_first_insertion_creates_leaf_root() {
    let mut tree = BTree::new(3);

    tree.insert(10, "ten".to_string());
    tree.insert(20, "twenty".to_string());
    tree.insert(5, "five".to_string());

    assert!(!tree.is_empty());
    assert!(matches!(tree.root, Some(BTreeNode::LeafNode(_))));
}

#[test]
fn test_leaf_node_splitting() {
    let mut tree = BTree::new(3);

    for i in 1..=6 {
        tree.insert(i, format!("value_{}", i));
    }

    assert!(matches!(tree.root, Some(BTreeNode::Internal(_))));
}

#[test]
fn test_multiple_insertions_maintain_order() {
    let mut tree = BTree::new(3);
    let values = vec![50, 30, 70, 20, 40, 60, 80, 10, 25, 35, 45];

    for val in values {
        tree.insert(val, format!("value_{}", val));
    }

    assert!(!tree.is_empty());
}

#[test]
fn test_duplicate_insertions() {
    let mut tree = BTree::new(3);

    tree.insert(10, "first".to_string());
    tree.insert(10, "second".to_string());
    tree.insert(20, "twenty".to_string());
    tree.insert(10, "third".to_string());

    assert!(!tree.is_empty());
}

#[test]
fn test_contains_key() {
    let mut tree = BTree::new(3);

    tree.insert("key1".to_string(), "value1".to_string());
    tree.insert("key2".to_string(), "value2".to_string());
    tree.insert("key3".to_string(), "value3".to_string());

    assert!(tree.contains_key(&"key1".to_string()));
    assert!(tree.contains_key(&"key2".to_string()));
    assert!(tree.contains_key(&"key3".to_string()));
    assert!(!tree.contains_key(&"key4".to_string()));
    assert!(!tree.contains_key(&"nonexistent".to_string()));
}

fn leaf_entries(node: &BTreeNode<i32, i32>, out: &mut Vec<(i32, i32)>) {
    match node {
        BTreeNode::LeafNode(leaf) => out.extend(leaf.entries.iter().cloned()),
        BTreeNode::Internal(internal) => {
            assert_eq!(internal.children.len(), internal.keys.len() + 1);
            for child in &internal.children {
                leaf_entries(child, out);
            }
        }
    }
}

#[test]
fn btree_keeps_every_entry_in_key_order() {
    let mut tree: BTree<i32, i32> = BTree::new(3);
    let mut expected = Vec::new();
    for i in 0..500 {
        let key = (i * 37) % 211;
        tree.insert(key, i);
        expected.push(key);
    }
    let mut found = Vec::new();
    leaf_entries(tree.root.as_ref().unwrap(), &mut found);
    assert_eq!(found.len(), 500);
    let keys: Vec<i32> = found.iter().map(|e| e.0).collect();
    expected.sort();
    assert_eq!(keys, expected);
    let mut values: Vec<i32> = found.iter().map(|e| e.1).collect();
    values.sort();
    assert_eq!(values, (0..500).collect::<Vec<i32>>());
    for entry in &found {
        assert_eq!((entry.1 * 37) % 211, entry.0);
    }
    assert!(!tree.contains_key(&211));
    assert_eq!(tree.get(&-1), None);
}

#[test]
fn btree_get_finds_first_entry_of_a_leaf_root() {
    let mut tree: BTree<i32, i32> = BTree::new(3);
    tree.insert(2, 20);
    tree.insert(1, 10);
    tree.insert(3, 30);
    tree.insert(2, 21);
    assert_eq!(tree.get(&1), Some(&10));
    assert_eq!(tree.get(&2), Some(&21));
    assert_eq!(tree.get(&3), Some(&30));
    assert_eq!(tree.get(&4), None);
}

#[test]
fn btree_get_on_empty_tree() {
    let tree: BTree<i32, i32> = BTree::new(4);
    assert_eq!(tree.get(&1), None);
    assert!(!tree.contains_key(&1));
}

#[test]
fn btree_finds_a_key_right_after_its_insert() {
    let mut tree: BTree<i32, i32> = BTree::new(3);
    for i in 0..400 {
        let key = (i * 53) % 97;
        tree.insert(key, i);
        assert!(tree.contains_key(&key));
        assert!(tree.get(&key).is_some());
    }
    let mut words: BTree<String, usize> = BTree::new(4);
    for i in 0..200usize {
        let key = format!("w{}", (i * 7) % 41);
        words.insert(key.clone(), i);
        assert!(words.contains_key(&key));
    }
}
