use std::collections::HashSet;

use minmax_tree::children_iter::{BinaryNode, ChildrenIter};

#[test]
fn depth_tree_search() {
    let mut visited = HashSet::new();

    let mut stack = Vec::new();
    let root = BinaryNode { key: 0 };
    stack.push(root);

    while let Some(node) = stack.pop() {
        println!("Current node: {:08b}", &node.key);
        visited.insert(node.key);

        for child in node.children_iter() {
            stack.push(child)
        }
    }

    for k in 0..u8::MAX {
        assert_eq!(visited.contains(&k), true);
        println!("k {:08b} was visited {:} ", &k, visited.contains(&k));
    }
}

#[test]
fn binary_node_children() {
    let keys = |n: &BinaryNode| n.children_iter().iter().map(|c| c.key).collect::<Vec<u8>>();
    assert_eq!(keys(&BinaryNode { key: 0 }), vec![1]);
    assert_eq!(keys(&BinaryNode { key: 5 }), vec![10, 11]);
    assert_eq!(keys(&BinaryNode { key: 127 }), vec![254, 255]);
    assert_eq!(keys(&BinaryNode { key: 128 }), Vec::<u8>::new());
}
