//! An example graph: vertices are 8-bit labels forming a binary tree.
use std::rc::Rc;
use vstd::prelude::*;

use crate::minmax::NodeKind;
use crate::vertex::Vertex;

verus! {

/// A vertex labelled by a byte. Label 0 has the single child 1; a label
/// below 128 has the children `2 * label + 1` and `2 * label`, in that
/// order; labels from 128 on are terminal.
#[derive(Debug, Hash, PartialEq, Eq, Clone, Structural)]
pub struct BinaryVertex {
    pub label: u8,
}

impl BinaryVertex {
    pub fn new(label: u8) -> (r: Self)
        ensures
            r.label == label,
    {
        BinaryVertex { label }
    }
}

impl Vertex for BinaryVertex {
    /// `true` leads to the odd child, `false` to the even one.
    type Edges = bool;

    open spec fn edges_spec(&self) -> Seq<bool> {
        if self.label == 0 {
            seq![true]
        } else if self.label < 128 {
            seq![true, false]
        } else {
            seq![]
        }
    }

    /// Doubling wraps around at 256, as a shift of the byte does.
    open spec fn next_spec(&self, edge: bool) -> Option<Self> {
        if self.label == 0 && !edge {
            None
        } else if self.label == 0 {
            Some(BinaryVertex { label: 1 })
        } else if !edge {
            Some(BinaryVertex { label: ((2 * self.label) % 256) as u8 })
        } else {
            Some(BinaryVertex { label: ((2 * self.label + 1) % 256) as u8 })
        }
    }

    open spec fn is_terminal_spec(&self) -> bool {
        self.label >= 128
    }

    fn edges(&self) -> (r: Vec<bool>) {
        let r = if self.label == 0 {
            vec![true]
        } else if self.label < 128 {
            vec![true, false]
        } else {
            vec![]
        };
        assert(r@ =~= self.edges_spec());
        r
    }

    fn next_vertex(&self, edge: bool) -> (r: Option<Rc<Self>>) {
        let doubled: u8 = if self.label < 128 {
            self.label * 2
        } else {
            (self.label - 128) * 2
        };
        if self.label == 0 && !edge {
            None
        } else if self.label == 0 && edge {
            Some(Rc::new(Self::new(1)))
        } else if !edge {
            Some(Rc::new(Self::new(doubled)))
        } else {
            Some(Rc::new(Self::new(doubled + 1)))
        }
    }

    fn is_terminal(&self) -> (r: bool) {
        self.label >= 128
    }

    fn same_vertex(&self, other: &Self) -> (r: bool) {
        self.label == other.label
    }
}

/// The number of binary digits of `n`.
pub open spec fn bit_length(n: nat) -> nat
    decreases n,
{
    if n == 0 {
        0
    } else {
        1 + bit_length(n / 2)
    }
}

proof fn lemma_bit_length_bound(n: nat, k: nat)
    requires
        n < vstd::arithmetic::power2::pow2(k),
    ensures
        bit_length(n) <= k,
    decreases k,
{
    if n > 0 {
        if k == 0 {
            vstd::arithmetic::power2::lemma2_to64();
        } else {
            vstd::arithmetic::power2::lemma_pow2_unfold(k);
            lemma_bit_length_bound(n / 2, (k - 1) as nat);
        }
    }
}

/// Labels with an odd number of binary digits maximize, the others minimize.
pub fn kind(vertex: &BinaryVertex) -> (r: NodeKind)
    ensures
        r == (if bit_length(vertex.label as nat) % 2 == 1 {
            NodeKind::Maximizer
        } else {
            NodeKind::Minimizer
        }),
{
    let mut length: u8 = 0;
    let mut label: u8 = vertex.label;
    proof {
        vstd::arithmetic::power2::lemma2_to64();
        lemma_bit_length_bound(vertex.label as nat, 8);
    }
    while label > 0
        invariant
            length as nat + bit_length(label as nat) == bit_length(vertex.label as nat),
            bit_length(vertex.label as nat) <= 8,
        decreases label,
    {
        length = length + 1;
        label = label / 2;
    }
    if length % 2 == 1 {
        NodeKind::Maximizer
    } else {
        NodeKind::Minimizer
    }
}

/// A label is worth its own value.
pub fn reward(vertex: &BinaryVertex) -> (r: i64)
    ensures
        r == vertex.label as i64,
{
    vertex.label as i64
}

} // verus!
