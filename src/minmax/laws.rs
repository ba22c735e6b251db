//! Properties of the search, proved over its specification.
use vstd::prelude::*;

use super::game_value::{best_of, minimax, search, sound_slots, terminal_data};
use super::node_data::{improves, Score};
use super::NodeKind;
use crate::vertex::{children_of, Vertex};
use super::node_data::NodeData;

verus! {

/// Whether every path from `v` reaches a terminal vertex within `d` moves.
pub open spec fn resolved<V: Vertex>(v: V, d: usize) -> bool
    decreases d,
{
    v.is_terminal_spec() || (d > 0 && forall|i: int|
        0 <= i < children_of(v).len() ==> resolved(#[trigger] children_of(v)[i].0, (d - 1) as usize))
}

/// The running best of two searches agrees when every child scored so far
/// scores the same in both.
pub proof fn lemma_best_of_agree<V: Vertex>(
    rw: spec_fn(V) -> i64,
    kd: spec_fn(V) -> NodeKind,
    old1: Map<V, NodeData<V::Edges>>,
    old2: Map<V, NodeData<V::Edges>>,
    kind: NodeKind,
    cs: Seq<(V, V::Edges)>,
    d1: usize,
    d2: usize,
    n: nat,
)
    requires
        n <= cs.len(),
        forall|i: int|
            0 <= i < n ==> (#[trigger] search(rw, kd, old1, cs[i].0, d1)).value == search(
                rw,
                kd,
                old2,
                cs[i].0,
                d2,
            ).value,
    ensures
        best_of(rw, kd, old1, kind, cs, d1, n) == best_of(rw, kd, old2, kind, cs, d2, n),
    decreases n,
{
    if n > 0 {
        lemma_best_of_agree(rw, kd, old1, old2, kind, cs, d1, d2, (n - 1) as nat);
        assert(search(rw, kd, old1, cs[n - 1].0, d1).value == search(rw, kd, old2, cs[n - 1].0, d2).value);
    }
}

/// Terminal fixpoint: over sound slots, a terminal vertex is scored by its
/// reward whatever depth is asked for, with no edge, and trusted to the
/// maximal depth.
pub proof fn lemma_terminal_fixpoint<V: Vertex>(
    rw: spec_fn(V) -> i64,
    kd: spec_fn(V) -> NodeKind,
    old: Map<V, NodeData<V::Edges>>,
    v: V,
    d: usize,
)
    requires
        sound_slots(rw, kd, old),
        v.is_terminal_spec(),
    ensures
        search(rw, kd, old, v, d) == terminal_data(rw, kd, v),
        search(rw, kd, old, v, d).value == Score::Finite(rw(v)),
        search(rw, kd, old, v, d).depth == usize::MAX,
{
    if old.contains_key(v) && old[v].depth >= d {
        assert(old.contains_key(v));
    }
}

/// Convergence in depth: once every path from `v` ends within `d` moves, a
/// search to any greater depth finds the same value and edge.
pub proof fn lemma_depth_converges<V: Vertex>(
    rw: spec_fn(V) -> i64,
    kd: spec_fn(V) -> NodeKind,
    v: V,
    d: usize,
    deeper: usize,
)
    requires
        resolved(v, d),
        d <= deeper,
    ensures
        minimax(rw, kd, v, deeper).value == minimax(rw, kd, v, d).value,
        minimax(rw, kd, v, deeper).edge == minimax(rw, kd, v, d).edge,
    decreases d,
{
    let empty = Map::<V, NodeData<V::Edges>>::empty();
    if !v.is_terminal_spec() {
        let cs = children_of(v);
        assert forall|i: int| 0 <= i < cs.len() implies (#[trigger] search(
            rw,
            kd,
            empty,
            cs[i].0,
            (deeper - 1) as usize,
        )).value == search(rw, kd, empty, cs[i].0, (d - 1) as usize).value by {
            assert(resolved(cs[i].0, (d - 1) as usize));
            lemma_depth_converges(rw, kd, cs[i].0, (d - 1) as usize, (deeper - 1) as usize);
        }
        lemma_best_of_agree(
            rw,
            kd,
            empty,
            empty,
            kd(v),
            cs,
            (deeper - 1) as usize,
            (d - 1) as usize,
            cs.len(),
        );
    }
}

/// Reuse correctness: when every earlier slot holds the value and edge that
/// a search from scratch finds at each depth up to its own, a search that
/// reuses those slots finds the value and edge of a search from scratch.
pub proof fn lemma_reuse_matches_fresh<V: Vertex>(
    rw: spec_fn(V) -> i64,
    kd: spec_fn(V) -> NodeKind,
    old: Map<V, NodeData<V::Edges>>,
    v: V,
    d: usize,
)
    requires
        forall|w: V, e: usize|
            #![trigger old.contains_key(w), minimax(rw, kd, w, e)]
            old.contains_key(w) && e <= old[w].depth ==> {
                &&& minimax(rw, kd, w, e).value == old[w].value
                &&& minimax(rw, kd, w, e).edge == old[w].edge
            },
    ensures
        search(rw, kd, old, v, d).value == minimax(rw, kd, v, d).value,
        search(rw, kd, old, v, d).edge == minimax(rw, kd, v, d).edge,
    decreases d,
{
    let empty = Map::<V, NodeData<V::Edges>>::empty();
    if old.contains_key(v) && old[v].depth >= d {
        assert(old.contains_key(v));
        assert(minimax(rw, kd, v, d).value == old[v].value);
    } else if !v.is_terminal_spec() && d > 0 {
        let cs = children_of(v);
        assert forall|i: int| 0 <= i < cs.len() implies (#[trigger] search(
            rw,
            kd,
            old,
            cs[i].0,
            (d - 1) as usize,
        )).value == search(rw, kd, empty, cs[i].0, (d - 1) as usize).value by {
            lemma_reuse_matches_fresh(rw, kd, old, cs[i].0, (d - 1) as usize);
        }
        lemma_best_of_agree(rw, kd, old, empty, kd(v), cs, (d - 1) as usize, (d - 1) as usize, cs.len());
    }
}

/// The running best is an extremum: no child scored so far strictly beats it.
pub proof fn lemma_best_is_extremum<V: Vertex>(
    rw: spec_fn(V) -> i64,
    kd: spec_fn(V) -> NodeKind,
    old: Map<V, NodeData<V::Edges>>,
    kind: NodeKind,
    cs: Seq<(V, V::Edges)>,
    d: usize,
    n: nat,
)
    requires
        n <= cs.len(),
    ensures
        forall|i: int|
            0 <= i < n ==> !improves(
                kind,
                best_of(rw, kd, old, kind, cs, d, n).0,
                (#[trigger] search(rw, kd, old, cs[i].0, d)).value,
            ),
    decreases n,
{
    if n > 0 {
        lemma_best_is_extremum(rw, kd, old, kind, cs, d, (n - 1) as nat);
    }
}

/// Tie-break stability: when the running best names an edge, that edge
/// belongs to the first child, in enumeration order, whose value equals the
/// best value; an equal value found later never displaces it.
pub proof fn lemma_first_best_wins<V: Vertex>(
    rw: spec_fn(V) -> i64,
    kd: spec_fn(V) -> NodeKind,
    old: Map<V, NodeData<V::Edges>>,
    kind: NodeKind,
    cs: Seq<(V, V::Edges)>,
    d: usize,
    n: nat,
)
    requires
        n <= cs.len(),
    ensures
        best_of(rw, kd, old, kind, cs, d, n).1 is Some ==> exists|j: int|
            0 <= j < n && cs[j].1 == best_of(rw, kd, old, kind, cs, d, n).1->0
                && search(rw, kd, old, cs[j].0, d).value == best_of(rw, kd, old, kind, cs, d, n).0
                && forall|i: int|
                0 <= i < j ==> (#[trigger] search(rw, kd, old, cs[i].0, d)).value != best_of(
                    rw,
                    kd,
                    old,
                    kind,
                    cs,
                    d,
                    n,
                ).0,
    decreases n,
{
    if n > 0 {
        let prev = best_of(rw, kd, old, kind, cs, d, (n - 1) as nat);
        let child = search(rw, kd, old, cs[n - 1].0, d);
        lemma_first_best_wins(rw, kd, old, kind, cs, d, (n - 1) as nat);
        if improves(kind, prev.0, child.value) {
            lemma_best_is_extremum(rw, kd, old, kind, cs, d, (n - 1) as nat);
            let j = n - 1;
            assert forall|i: int| 0 <= i < j implies (#[trigger] search(rw, kd, old, cs[i].0, d)).value
                != child.value by {
                assert(!improves(kind, prev.0, search(rw, kd, old, cs[i].0, d).value));
            }
        }
    }
}

} // verus!
