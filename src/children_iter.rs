//! Nodes that list their own children, and a binary example of them.
use vstd::prelude::*;

verus! {

/// A node that can list its children.
pub trait ChildrenIter: Sized {
    /// The children, in order.
    spec fn children_spec(&self) -> Seq<Self>;

    fn children_iter(&self) -> (r: Vec<Self>)
        ensures
            r@ == self.children_spec(),
    ;
}

/// A node keyed by a byte: key 0 has the single child 1, a key below 128 has
/// the children `2 * key` and `2 * key + 1`, and keys from 128 on are leaves.
#[derive(Debug)]
pub struct BinaryNode {
    pub key: u8,
}

impl ChildrenIter for BinaryNode {
    open spec fn children_spec(&self) -> Seq<Self> {
        if self.key >= 128 {
            seq![]
        } else if self.key == 0 {
            seq![BinaryNode { key: 1 }]
        } else {
            seq![BinaryNode { key: (2 * self.key) as u8 }, BinaryNode { key: (2 * self.key + 1) as u8 }]
        }
    }

    fn children_iter(&self) -> (r: Vec<Self>) {
        let output = if self.key >= 128 {
            Vec::new()
        } else if self.key == 0 {
            let child_a = BinaryNode { key: 1 };
            vec![child_a]
        } else {
            let child_a = BinaryNode { key: self.key * 2 };
            let child_b = BinaryNode { key: self.key * 2 + 1 };
            vec![child_a, child_b]
        };
        assert(output@ =~= self.children_spec());
        output
    }
}

} // verus!
