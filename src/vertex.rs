//! The capabilities that every position of a decision graph provides.
use std::rc::Rc;
use vstd::prelude::*;

verus! {

/// A position of a two-player, alternating-move decision graph.
///
/// The spec functions describe the graph; the exec functions must agree with
/// them, which makes transitions pure functions of `(vertex, edge)`.
pub trait Vertex: Sized {
    /// A small token naming one move out of a vertex.
    type Edges: Copy;

    /// The moves out of this vertex, in enumeration order.
    spec fn edges_spec(&self) -> Seq<Self::Edges>;

    /// The successor reached through `edge`; `None` marks an illegal edge.
    spec fn next_spec(&self, edge: Self::Edges) -> Option<Self>;

    /// Whether the position ends the game.
    spec fn is_terminal_spec(&self) -> bool;

    fn edges(&self) -> (r: Vec<Self::Edges>)
        ensures
            r@ == self.edges_spec(),
    ;

    fn next_vertex(&self, edge: Self::Edges) -> (r: Option<Rc<Self>>)
        ensures
            match r {
                Some(c) => self.next_spec(edge) == Some(*c),
                None => self.next_spec(edge) is None,
            },
    ;

    fn is_terminal(&self) -> (r: bool)
        ensures
            r == self.is_terminal_spec(),
    ;

    /// Identity of positions: equal vertices share one cache entry.
    fn same_vertex(&self, other: &Self) -> (r: bool)
        ensures
            r == (*self == *other),
    ;
}

/// The `(successor, edge)` pairs produced by walking `edges` in order.
/// The walk ends at the first illegal edge: later edges are never expanded.
pub open spec fn expand<V: Vertex>(v: V, edges: Seq<V::Edges>) -> Seq<(V, V::Edges)>
    decreases edges.len(),
{
    if edges.len() == 0 {
        Seq::empty()
    } else {
        let prefix = expand(v, edges.drop_last());
        let e = edges.last();
        if prefix.len() + 1 == edges.len() && v.next_spec(e) is Some {
            prefix.push((v.next_spec(e)->0, e))
        } else {
            prefix
        }
    }
}

/// The children of `v`, in enumeration order.
pub open spec fn children_of<V: Vertex>(v: V) -> Seq<(V, V::Edges)> {
    expand(v, v.edges_spec())
}

/// Every expanded pair is a legal move of `v`, taken in order from `edges`.
pub proof fn lemma_expand_pairs<V: Vertex>(v: V, edges: Seq<V::Edges>)
    ensures
        expand(v, edges).len() <= edges.len(),
        forall|i: int|
            0 <= i < expand(v, edges).len() ==> {
                &&& #[trigger] expand(v, edges)[i].1 == edges[i]
                &&& v.next_spec(edges[i]) == Some(expand(v, edges)[i].0)
            },
    decreases edges.len(),
{
    if edges.len() > 0 {
        lemma_expand_pairs(v, edges.drop_last());
    }
}

/// Expanding a shorter prefix of the edges yields a prefix of the result.
pub proof fn lemma_expand_prefix<V: Vertex>(v: V, edges: Seq<V::Edges>, j: int, k: int)
    requires
        0 <= j <= k <= edges.len(),
    ensures
        expand(v, edges.take(j)).len() <= expand(v, edges.take(k)).len(),
        forall|i: int|
            0 <= i < expand(v, edges.take(j)).len() ==> #[trigger] expand(v, edges.take(k))[i]
                == expand(v, edges.take(j))[i],
    decreases k - j,
{
    if j < k {
        lemma_expand_prefix(v, edges, j, k - 1);
        assert(edges.take(k).drop_last() =~= edges.take(k - 1));
    }
}

/// Once an illegal edge has cut the walk short, more edges change nothing.
pub proof fn lemma_expand_stops<V: Vertex>(v: V, edges: Seq<V::Edges>, j: int, k: int)
    requires
        0 <= j <= k <= edges.len(),
        expand(v, edges.take(j)).len() < j,
    ensures
        expand(v, edges.take(k)) == expand(v, edges.take(j)),
    decreases k - j,
{
    if j < k {
        lemma_expand_stops(v, edges, j, k - 1);
        assert(edges.take(k).drop_last() =~= edges.take(k - 1));
    }
}

} // verus!
