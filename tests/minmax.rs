use std::rc::Rc;

use minmax_tree::binary_tree::{kind, reward};
use minmax_tree::{BinaryVertex, MinMax, Node, NodeData, NodeKind, Score, Vertex, VertexCached};

fn print_cache<R: Fn(&BinaryVertex) -> i64, K: Fn(&BinaryVertex) -> NodeKind>(
    tree: &MinMax<BinaryVertex, R, K>,
) {
    for (idx, node) in tree.cache().iter().enumerate() {
        println!(
            "Index: {:?}, Vertex {:?}, Value: {:?}, Kind {:?}, Depth {:?}, Edge {:?}",
            idx,
            node.vertex(),
            node.data.value,
            node.data.kind,
            node.data.depth,
            node.data.edge,
        );
    }
}

fn slot_of<R: Fn(&BinaryVertex) -> i64, K: Fn(&BinaryVertex) -> NodeKind>(
    tree: &MinMax<BinaryVertex, R, K>,
    label: u8,
) -> Option<(Score, usize, Option<bool>)> {
    tree.cache()
        .iter()
        .find(|n| n.vertex().label == label)
        .map(|n| (n.data.value, n.data.depth, n.data.edge))
}

#[test]
fn minmax_test() {
    let root = Rc::new(BinaryVertex::new(0));
    let depth = 9usize;

    let mut minmax_tree = MinMax::new(root, reward, kind, depth);

    println!("Original MinMax tree");
    print_cache(&minmax_tree);

    let new_root = Rc::new(BinaryVertex::new(2));

    minmax_tree.update(new_root);

    println!("After update: ");
    print_cache(&minmax_tree);
}

#[test]
fn search_from_label_zero_at_depth_nine() {
    let tree = MinMax::new(Rc::new(BinaryVertex::new(0)), reward, kind, 9);
    // Kinds alternate, so the root (a minimizer with the single move to the
    // maximizer 1) gets the minimax value 213, reached through its one edge.
    assert_eq!(tree.get_root_value_edge(), (Some(Score::Finite(213)), Some(true)));
    assert_eq!(tree.cache().len(), 256);
    assert_eq!(slot_of(&tree, 1), Some((Score::Finite(213), 8, Some(true))));
    assert_eq!(slot_of(&tree, 127), Some((Score::Finite(255), 2, Some(true))));
}

#[test]
fn reroot_to_label_two_matches_fresh_search() {
    let mut tree = MinMax::new(Rc::new(BinaryVertex::new(0)), reward, kind, 9);
    tree.update(Rc::new(BinaryVertex::new(2)));
    let fresh = MinMax::new(Rc::new(BinaryVertex::new(2)), reward, kind, 9);
    assert_eq!(tree.get_root_value_edge(), fresh.get_root_value_edge());
    assert_eq!(tree.get_root_value_edge(), (Some(Score::Finite(149)), Some(false)));
    assert_eq!(tree.root().label, 2);
    assert_eq!(tree.depth(), 9);
    assert_eq!(slot_of(&tree, 2), Some((Score::Finite(149), 9, Some(false))));
    // Only the subtree of label 2 is kept.
    assert_eq!(slot_of(&tree, 3), None);
    assert_eq!(tree.cache().len(), fresh.cache().len());
}

#[test]
fn update_to_same_root_reuses_slots() {
    let mut tree = MinMax::new(Rc::new(BinaryVertex::new(1)), reward, kind, 3);
    let before = tree.get_root_value_edge();
    tree.update(Rc::new(BinaryVertex::new(1)));
    assert_eq!(tree.get_root_value_edge(), before);
    assert_eq!(slot_of(&tree, 1).map(|s| s.1), Some(3));
}

#[test]
fn repeated_construction_is_deterministic() {
    let a = MinMax::new(Rc::new(BinaryVertex::new(5)), reward, kind, 4);
    let b = MinMax::new(Rc::new(BinaryVertex::new(5)), reward, kind, 4);
    assert_eq!(a.get_root_value_edge(), b.get_root_value_edge());
    for label in 0..=255u8 {
        assert_eq!(slot_of(&a, label), slot_of(&b, label));
    }
}

#[test]
fn depth_zero_is_static_evaluation() {
    let tree = MinMax::new(Rc::new(BinaryVertex::new(5)), reward, kind, 0);
    assert_eq!(tree.get_root_value_edge(), (Some(Score::Finite(5)), None));
    assert_eq!(tree.cache().len(), 1);
    assert_eq!(slot_of(&tree, 5), Some((Score::Finite(5), 0, None)));
}

#[test]
fn depth_one_picks_best_child() {
    // Label 64 maximizes over its children 129 and 128, both terminal.
    let tree = MinMax::new(Rc::new(BinaryVertex::new(64)), reward, kind, 1);
    assert_eq!(tree.get_root_value_edge(), (Some(Score::Finite(129)), Some(true)));
    // Label 32 minimizes at depth 1 over the static values of 65 and 64.
    let tree = MinMax::new(Rc::new(BinaryVertex::new(32)), reward, kind, 1);
    assert_eq!(tree.get_root_value_edge(), (Some(Score::Finite(64)), Some(false)));
}

#[test]
fn deeper_search_of_resolved_root_is_stable() {
    let at = |d: usize| MinMax::new(Rc::new(BinaryVertex::new(16)), reward, kind, d).get_root_value_edge();
    // Every path from 16 reaches a terminal within 4 moves.
    assert_eq!(at(4), at(5));
    assert_eq!(at(4), at(12));
    assert_eq!(at(4), at(usize::MAX));
}

#[test]
fn terminal_root_keeps_its_reward_at_any_depth() {
    for depth in [0usize, 1, 9, usize::MAX] {
        let tree = MinMax::new(Rc::new(BinaryVertex::new(200)), reward, kind, depth);
        assert_eq!(tree.get_root_value_edge(), (Some(Score::Finite(200)), None));
        assert_eq!(slot_of(&tree, 200), Some((Score::Finite(200), usize::MAX, None)));
    }
}

#[test]
fn terminal_slots_hold_reward_and_maximal_depth() {
    let tree = MinMax::new(Rc::new(BinaryVertex::new(0)), reward, kind, 9);
    for label in 128..=255u8 {
        assert_eq!(slot_of(&tree, label), Some((Score::Finite(label as i64), usize::MAX, None)));
    }
}

#[test]
fn equal_children_keep_first_edge() {
    let flat = |_: &BinaryVertex| 7i64;
    let tree = MinMax::new(Rc::new(BinaryVertex::new(64)), flat, kind, 1);
    assert_eq!(tree.get_root_value_edge(), (Some(Score::Finite(7)), Some(true)));
    let tree = MinMax::new(Rc::new(BinaryVertex::new(32)), flat, kind, 3);
    assert_eq!(tree.get_root_value_edge(), (Some(Score::Finite(7)), Some(true)));
}

#[test]
fn custom_kind_and_negative_rewards() {
    let neg = |v: &BinaryVertex| -(v.label as i64);
    let always_max = |_: &BinaryVertex| NodeKind::Maximizer;
    let tree = MinMax::new(Rc::new(BinaryVertex::new(64)), neg, always_max, 1);
    assert_eq!(tree.get_root_value_edge(), (Some(Score::Finite(-128)), Some(false)));
}

#[test]
fn vertex_cached_replays_children() {
    let v = Rc::new(BinaryVertex::new(3));
    let mut children = VertexCached::new(&v);
    assert_eq!(children.vertex().label, 3);
    let (a, ea) = children.next().unwrap();
    let (b, eb) = children.next().unwrap();
    assert_eq!((a.label, ea), (7, true));
    assert_eq!((b.label, eb), (6, false));
    assert!(children.next().is_none());
    assert!(children.next().is_none());
    children.reset();
    let (a2, _) = children.next().unwrap();
    assert!(Rc::ptr_eq(&a, &a2));
    let (b2, _) = children.next().unwrap();
    assert!(Rc::ptr_eq(&b, &b2));
    assert!(children.next().is_none());
}

#[test]
fn vertex_cached_label_zero_and_terminal() {
    let mut zero = VertexCached::new(&Rc::new(BinaryVertex::new(0)));
    assert_eq!(zero.next().map(|(c, e)| (c.label, e)), Some((1, true)));
    assert!(zero.next().is_none());
    let mut leaf = VertexCached::new(&Rc::new(BinaryVertex::new(130)));
    assert!(leaf.next().is_none());
}

#[test]
fn binary_vertex_transitions() {
    let zero = BinaryVertex::new(0);
    assert_eq!(zero.edges(), vec![true]);
    assert_eq!(zero.next_vertex(false), None);
    assert_eq!(zero.next_vertex(true).map(|c| c.label), Some(1));
    let five = BinaryVertex::new(5);
    assert_eq!(five.edges(), vec![true, false]);
    assert_eq!(five.next_vertex(true).map(|c| c.label), Some(11));
    assert_eq!(five.next_vertex(false).map(|c| c.label), Some(10));
    assert!(!five.is_terminal());
    let big = BinaryVertex::new(200);
    assert!(big.is_terminal());
    assert_eq!(big.edges(), Vec::<bool>::new());
    assert_eq!(big.next_vertex(false).map(|c| c.label), Some(144));
    assert_eq!(big.next_vertex(true).map(|c| c.label), Some(145));
    assert!(five.same_vertex(&BinaryVertex::new(5)));
    assert!(!five.same_vertex(&zero));
}

#[test]
fn node_reset_keeps_children() {
    let v = Rc::new(BinaryVertex::new(10));
    let mut node = Node::new(&v, None, None, NodeData::new(NodeKind::Minimizer));
    assert_eq!(node.vertex().label, 10);
    let first = node.children.next().unwrap();
    node.reset_children();
    let again = node.children.next().unwrap();
    assert!(Rc::ptr_eq(&first.0, &again.0));
    assert_eq!(node.data.value, Score::PosInfinity);
}

#[test]
fn update_and_fresh_search_agree_everywhere() {
    for depth in [0usize, 1, 2, 4, 9] {
        for label in [0u8, 1, 2, 5, 17, 64, 100, 127, 128, 255] {
            // A terminal root leaves a cache that holds only itself.
            let mut tree = MinMax::new(Rc::new(BinaryVertex::new(200)), reward, kind, depth);
            tree.update(Rc::new(BinaryVertex::new(label)));
            let fresh = MinMax::new(Rc::new(BinaryVertex::new(label)), reward, kind, depth);
            assert_eq!(tree.get_root_value_edge(), fresh.get_root_value_edge());
            for other in 0..=255u8 {
                assert_eq!(slot_of(&tree, other), slot_of(&fresh, other));
            }
        }
    }
}

#[test]
fn update_after_deeper_history_keeps_terminal_slots() {
    let mut tree = MinMax::new(Rc::new(BinaryVertex::new(0)), reward, kind, 9);
    tree.update(Rc::new(BinaryVertex::new(70)));
    assert_eq!(tree.get_root_value_edge(), (Some(Score::Finite(141)), Some(true)));
    assert_eq!(slot_of(&tree, 141), Some((Score::Finite(141), usize::MAX, None)));
    assert_eq!(slot_of(&tree, 140), Some((Score::Finite(140), usize::MAX, None)));
    assert_eq!(tree.cache().len(), 3);
}
