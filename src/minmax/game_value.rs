//! What a search computes, stated over the graph and the two scoring
//! functions.
use vstd::prelude::*;

use super::node_data::{improves, initial_score, NodeData, Score};
use super::NodeKind;
use crate::vertex::{children_of, Vertex};

verus! {

/// The slot of a terminal vertex: its reward, trusted to every depth.
pub open spec fn terminal_data<V: Vertex>(
    rw: spec_fn(V) -> i64,
    kd: spec_fn(V) -> NodeKind,
    v: V,
) -> NodeData<V::Edges> {
    NodeData { kind: kd(v), depth: usize::MAX, value: Score::Finite(rw(v)), edge: None }
}

/// The slot that a search of `v` to depth `d` records, given the slots `old`
/// of an earlier search: an earlier slot trusted to depth `d` or more is
/// taken as it is; a terminal vertex, or any vertex at depth 0, is scored by
/// its reward; otherwise the children are searched to depth `d - 1` and the
/// first strictly best of them wins.
pub open spec fn search<V: Vertex>(
    rw: spec_fn(V) -> i64,
    kd: spec_fn(V) -> NodeKind,
    old: Map<V, NodeData<V::Edges>>,
    v: V,
    d: usize,
) -> NodeData<V::Edges>
    decreases d as int, 1int, 0int,
{
    if old.contains_key(v) && old[v].depth >= d {
        old[v]
    } else if v.is_terminal_spec() {
        terminal_data(rw, kd, v)
    } else if d == 0 {
        NodeData { kind: kd(v), depth: 0, value: Score::Finite(rw(v)), edge: None }
    } else {
        let cs = children_of(v);
        let b = best_of(rw, kd, old, kd(v), cs, (d - 1) as usize, cs.len());
        NodeData { kind: kd(v), depth: d, value: b.0, edge: b.1 }
    }
}

/// The running value and edge of a node of kind `kind` after its first `n`
/// children `cs` have been searched to depth `d`.
pub open spec fn best_of<V: Vertex>(
    rw: spec_fn(V) -> i64,
    kd: spec_fn(V) -> NodeKind,
    old: Map<V, NodeData<V::Edges>>,
    kind: NodeKind,
    cs: Seq<(V, V::Edges)>,
    d: usize,
    n: nat,
) -> (Score, Option<V::Edges>)
    decreases d as int + 1, 0int, n as int,
{
    if n == 0 || n > cs.len() {
        (initial_score(kind), None)
    } else {
        let prev = best_of(rw, kd, old, kind, cs, d, (n - 1) as nat);
        let child = search(rw, kd, old, cs[n - 1].0, d);
        if improves(kind, prev.0, child.value) {
            (child.value, Some(cs[n - 1].1))
        } else {
            prev
        }
    }
}

/// The minimax slot of `v` at depth `d`, computed from scratch.
pub open spec fn minimax<V: Vertex>(
    rw: spec_fn(V) -> i64,
    kd: spec_fn(V) -> NodeKind,
    v: V,
    d: usize,
) -> NodeData<V::Edges> {
    search(rw, kd, Map::empty(), v, d)
}

/// Slots that agree with the scoring functions: each has its vertex's kind,
/// and a terminal vertex holds its reward at the maximal depth.
pub open spec fn sound_slots<V: Vertex>(
    rw: spec_fn(V) -> i64,
    kd: spec_fn(V) -> NodeKind,
    m: Map<V, NodeData<V::Edges>>,
) -> bool {
    forall|v: V|
        #[trigger] m.contains_key(v) ==> {
            &&& m[v].kind == kd(v)
            &&& v.is_terminal_spec() ==> m[v] == terminal_data(rw, kd, v)
        }
}

/// A search over sound slots records a sound slot.
pub proof fn lemma_search_sound<V: Vertex>(
    rw: spec_fn(V) -> i64,
    kd: spec_fn(V) -> NodeKind,
    old: Map<V, NodeData<V::Edges>>,
    v: V,
    d: usize,
)
    requires
        sound_slots(rw, kd, old),
    ensures
        search(rw, kd, old, v, d).kind == kd(v),
        v.is_terminal_spec() ==> search(rw, kd, old, v, d) == terminal_data(rw, kd, v),
        search(rw, kd, old, v, d).depth >= d,
{
    if old.contains_key(v) && old[v].depth >= d {
        assert(old.contains_key(v));
    }
}

} // verus!
