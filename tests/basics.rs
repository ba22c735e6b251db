use minmax_tree::binary_tree::{kind, reward};
use minmax_tree::{BinaryVertex, NodeData, NodeKind, Score};

#[test]
fn it_works() {
    assert_eq!(2 + 2, 4);
}

#[test]
fn kind_follows_bit_length_parity() {
    assert_eq!(kind(&BinaryVertex::new(0)), NodeKind::Minimizer);
    assert_eq!(kind(&BinaryVertex::new(1)), NodeKind::Maximizer);
    assert_eq!(kind(&BinaryVertex::new(2)), NodeKind::Minimizer);
    assert_eq!(kind(&BinaryVertex::new(3)), NodeKind::Minimizer);
    assert_eq!(kind(&BinaryVertex::new(4)), NodeKind::Maximizer);
    assert_eq!(kind(&BinaryVertex::new(127)), NodeKind::Maximizer);
    assert_eq!(kind(&BinaryVertex::new(128)), NodeKind::Minimizer);
    assert_eq!(kind(&BinaryVertex::new(255)), NodeKind::Minimizer);
}

#[test]
fn reward_is_the_label() {
    assert_eq!(reward(&BinaryVertex::new(0)), 0);
    assert_eq!(reward(&BinaryVertex::new(213)), 213);
    assert_eq!(reward(&BinaryVertex { label: 255 }), 255);
}

#[test]
fn score_order() {
    assert!(Score::NegInfinity.less_than(&Score::Finite(i64::MIN)));
    assert!(Score::Finite(-3).less_than(&Score::Finite(2)));
    assert!(Score::Finite(i64::MAX).less_than(&Score::PosInfinity));
    assert!(Score::NegInfinity.less_than(&Score::PosInfinity));
    assert!(!Score::Finite(2).less_than(&Score::Finite(2)));
    assert!(!Score::PosInfinity.less_than(&Score::PosInfinity));
    assert!(!Score::NegInfinity.less_than(&Score::NegInfinity));
    assert!(!Score::PosInfinity.less_than(&Score::Finite(0)));
}

#[test]
fn node_data_starts_at_open_extreme() {
    let max: NodeData<bool> = NodeData::new(NodeKind::Maximizer);
    assert_eq!(max.value, Score::NegInfinity);
    assert_eq!(max.depth, 0);
    assert_eq!(max.edge, None);
    let min: NodeData<bool> = NodeData::new(NodeKind::Minimizer);
    assert_eq!(min.value, Score::PosInfinity);
    assert_eq!(min.edge, None);
}

#[test]
fn node_data_update_keeps_first_of_equal_values() {
    let mut d: NodeData<u8> = NodeData::new(NodeKind::Maximizer);
    d.update(Score::Finite(5), 1);
    assert_eq!((d.value, d.edge), (Score::Finite(5), Some(1)));
    d.update(Score::Finite(5), 2);
    assert_eq!((d.value, d.edge), (Score::Finite(5), Some(1)));
    d.update(Score::Finite(4), 3);
    assert_eq!((d.value, d.edge), (Score::Finite(5), Some(1)));
    d.update(Score::Finite(9), 4);
    assert_eq!((d.value, d.edge), (Score::Finite(9), Some(4)));
}

#[test]
fn node_data_update_minimizer() {
    let mut d: NodeData<u8> = NodeData::new(NodeKind::Minimizer);
    d.update(Score::Finite(5), 1);
    assert_eq!((d.value, d.edge), (Score::Finite(5), Some(1)));
    d.update(Score::Finite(7), 2);
    assert_eq!((d.value, d.edge), (Score::Finite(5), Some(1)));
    d.update(Score::Finite(5), 3);
    assert_eq!((d.value, d.edge), (Score::Finite(5), Some(1)));
    d.update(Score::Finite(-1), 4);
    assert_eq!((d.value, d.edge), (Score::Finite(-1), Some(4)));
}
