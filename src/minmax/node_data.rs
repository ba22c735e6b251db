//! The memoized outcome of searching one vertex.
use vstd::prelude::*;

use super::NodeKind;

verus! {

/// A search value: a reward, or one of the two open extremes that start a
/// running maximum or minimum.
#[derive(Clone, Copy, PartialEq, Eq, Debug, Hash, Structural)]
pub enum Score {
    NegInfinity,
    Finite(i64),
    PosInfinity,
}

impl Score {
    /// The order of the extended integers.
    pub open spec fn lt_spec(self, other: Score) -> bool {
        match (self, other) {
            (Score::NegInfinity, Score::NegInfinity) => false,
            (Score::NegInfinity, _) => true,
            (Score::Finite(a), Score::Finite(b)) => a < b,
            (Score::Finite(_), Score::PosInfinity) => true,
            _ => false,
        }
    }

    pub fn less_than(&self, other: &Score) -> (r: bool)
        ensures
            r == self.lt_spec(*other),
    {
        match (self, other) {
            (Score::NegInfinity, Score::NegInfinity) => false,
            (Score::NegInfinity, _) => true,
            (Score::Finite(a), Score::Finite(b)) => *a < *b,
            (Score::Finite(_), Score::PosInfinity) => true,
            _ => false,
        }
    }
}

/// The value a node of this kind starts from before any child is seen.
pub open spec fn initial_score(kind: NodeKind) -> Score {
    match kind {
        NodeKind::Maximizer => Score::NegInfinity,
        NodeKind::Minimizer => Score::PosInfinity,
    }
}

/// Whether `candidate` strictly beats `current` for a node of this kind.
pub open spec fn improves(kind: NodeKind, current: Score, candidate: Score) -> bool {
    match kind {
        NodeKind::Maximizer => current.lt_spec(candidate),
        NodeKind::Minimizer => candidate.lt_spec(current),
    }
}

/// The result slot of a search node: its kind, the depth to which its value
/// can be trusted, the best value seen and the edge that reached it.
#[derive(Clone, Copy, Debug)]
pub struct NodeData<E> {
    pub kind: NodeKind,
    pub depth: usize,
    pub value: Score,
    pub edge: Option<E>,
}

impl<E: Copy> NodeData<E> {
    /// An empty slot: depth 0, the kind's open extreme, no edge.
    pub fn new(kind: NodeKind) -> (r: Self)
        ensures
            r == (NodeData::<E> { kind, depth: 0, value: initial_score(kind), edge: None }),
    {
        let value = if kind == NodeKind::Maximizer {
            Score::NegInfinity
        } else {
            Score::PosInfinity
        };
        NodeData { kind, depth: 0, value, edge: None }
    }

    /// Adopts `new_value` and `edge` when the value strictly improves on the
    /// current one; on a tie the earlier edge stays.
    pub fn update(&mut self, new_value: Score, edge: E)
        ensures
            *final(self) == (if improves(old(self).kind, old(self).value, new_value) {
                NodeData { value: new_value, edge: Some(edge), ..*old(self) }
            } else {
                *old(self)
            }),
    {
        if self.kind == NodeKind::Maximizer {
            if self.value.less_than(&new_value) {
                self.value = new_value;
                self.edge = Some(edge);
            }
        } else {
            if new_value.less_than(&self.value) {
                self.value = new_value;
                self.edge = Some(edge);
            }
        }
    }
}

} // verus!
