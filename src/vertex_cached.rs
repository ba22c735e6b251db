//! Lazy, replayable expansion of one vertex into its children.
use std::rc::Rc;
use vstd::prelude::*;

use crate::vertex::{children_of, expand, lemma_expand_prefix, lemma_expand_stops, Vertex};

verus! {

/// Expands a vertex into `(successor, edge)` pairs on demand.
///
/// Transitions are computed once, the first time a pair is reached, and
/// buffered; after `reset` the buffered pairs are replayed without computing
/// them again. An illegal edge ends the expansion for good, so every
/// traversal yields the same pairs in the same order.
pub struct VertexCached<V: Vertex> {
    vertex: Rc<V>,
    visited: Vec<(Rc<V>, V::Edges)>,
    to_visit: Vec<V::Edges>,
    consumed: usize,
    index: usize,
}

impl<V: Vertex> VertexCached<V> {
    /// The vertex being expanded.
    pub closed spec fn vertex_spec(&self) -> V {
        *self.vertex
    }

    /// How many pairs the current traversal has handed out.
    pub closed spec fn cursor(&self) -> nat {
        self.index as nat
    }

    /// The pairs computed so far.
    pub closed spec fn buffered(&self) -> Seq<(V, V::Edges)> {
        self.visited@.map_values(|p: (Rc<V>, V::Edges)| (*p.0, p.1))
    }

    pub closed spec fn wf(&self) -> bool {
        &&& self.to_visit@ == self.vertex_spec().edges_spec()
        &&& self.consumed <= self.to_visit.len()
        &&& self.buffered() == expand(self.vertex_spec(), self.to_visit@.take(self.consumed as int))
        &&& self.consumed < self.to_visit.len() ==> self.visited.len() == self.consumed
        &&& self.index <= self.visited.len()
    }

    /// The buffer is a prefix of the children, and the cursor lies within it.
    pub proof fn lemma_wf(&self)
        requires
            self.wf(),
        ensures
            self.cursor() <= self.buffered().len() <= children_of(self.vertex_spec()).len(),
            forall|i: int|
                0 <= i < self.buffered().len() ==> #[trigger] self.buffered()[i] == children_of(
                    self.vertex_spec(),
                )[i],
    {
        let es = self.to_visit@;
        lemma_expand_prefix(self.vertex_spec(), es, self.consumed as int, es.len() as int);
        assert(es.take(es.len() as int) =~= es);
    }

    pub fn new(vertex: &Rc<V>) -> (r: Self)
        ensures
            r.wf(),
            r.vertex_spec() == **vertex,
            r.cursor() == 0,
            r.buffered().len() == 0,
    {
        let r = VertexCached {
            vertex: vertex.clone(),
            visited: Vec::new(),
            to_visit: vertex.edges(),
            consumed: 0,
            index: 0,
        };
        assert(r.to_visit@.take(0) =~= Seq::<V::Edges>::empty());
        assert(r.buffered() =~= Seq::<(V, V::Edges)>::empty());
        r
    }

    /// A second expansion of the same vertex, at the same cursor, holding
    /// the same computed pairs; the vertices themselves are shared.
    pub fn duplicate(&self) -> (r: Self)
        requires
            self.wf(),
        ensures
            r.wf(),
            r.vertex_spec() == self.vertex_spec(),
            r.cursor() == self.cursor(),
            r.buffered() == self.buffered(),
    {
        let mut visited: Vec<(Rc<V>, V::Edges)> = Vec::new();
        let mut i: usize = 0;
        while i < self.visited.len()
            invariant
                i <= self.visited.len(),
                visited.len() == i,
                forall|j: int|
                    0 <= j < i ==> *(#[trigger] visited@[j]).0 == *self.visited@[j].0
                        && visited@[j].1 == self.visited@[j].1,
            decreases self.visited.len() - i,
        {
            visited.push((self.visited[i].0.clone(), self.visited[i].1));
            i = i + 1;
        }
        let mut to_visit: Vec<V::Edges> = Vec::new();
        let mut j: usize = 0;
        while j < self.to_visit.len()
            invariant
                j <= self.to_visit.len(),
                to_visit@ == self.to_visit@.take(j as int),
            decreases self.to_visit.len() - j,
        {
            to_visit.push(self.to_visit[j]);
            j = j + 1;
            assert(to_visit@ =~= self.to_visit@.take(j as int));
        }
        assert(to_visit@ =~= self.to_visit@);
        let r = VertexCached {
            vertex: self.vertex.clone(),
            visited,
            to_visit,
            consumed: self.consumed,
            index: self.index,
        };
        assert(r.buffered() =~= self.buffered());
        r
    }

    /// Rewinds the traversal; the computed pairs are kept.
    pub fn reset(&mut self)
        requires
            old(self).wf(),
        ensures
            final(self).wf(),
            final(self).vertex_spec() == old(self).vertex_spec(),
            final(self).buffered() == old(self).buffered(),
            final(self).cursor() == 0,
    {
        self.index = 0;
    }

    pub fn vertex(&self) -> (r: &Rc<V>)
        ensures
            **r == self.vertex_spec(),
    {
        &self.vertex
    }

    /// The pair at the cursor, computed on first use; `None` once the
    /// children are exhausted.
    pub fn next(&mut self) -> (r: Option<(Rc<V>, V::Edges)>)
        requires
            old(self).wf(),
        ensures
            final(self).wf(),
            final(self).vertex_spec() == old(self).vertex_spec(),
            ({
                let cs = children_of(old(self).vertex_spec());
                let k = old(self).cursor();
                if k < cs.len() {
                    &&& r matches Some(p) && *p.0 == cs[k as int].0 && p.1 == cs[k as int].1
                    &&& final(self).cursor() == k + 1
                } else {
                    &&& r is None
                    &&& final(self).cursor() == k
                }
            }),
            old(self).cursor() < old(self).buffered().len() ==> final(self).buffered() == old(
                self,
            ).buffered(),
    {
        proof {
            self.lemma_wf();
        }
        let ghost v = self.vertex_spec();
        let ghost es = self.to_visit@;
        if self.index < self.visited.len() {
            let i = self.index;
            let pair = (self.visited[i].0.clone(), self.visited[i].1);
            self.index = i + 1;
            assert(self.buffered()[i as int] == (*self.visited@[i as int].0, self.visited@[i as int].1));
            Some(pair)
        } else if self.consumed >= self.to_visit.len() {
            proof {
                assert(es.take(es.len() as int) =~= es);
            }
            None
        } else {
            let e = self.to_visit[self.consumed];
            let ghost before = self.buffered();
            let ghost pos = self.consumed as int;
            assert(es.take(pos + 1).drop_last() =~= es.take(pos));
            assert(es.take(pos + 1).last() == e);
            match self.vertex.next_vertex(e) {
                Some(c) => {
                    self.visited.push((c.clone(), e));
                    self.consumed = self.consumed + 1;
                    self.index = self.index + 1;
                    assert(self.buffered() =~= before.push((*c, e)));
                    proof {
                        lemma_expand_prefix(v, es, pos + 1, es.len() as int);
                        assert(es.take(es.len() as int) =~= es);
                        assert(expand(v, es.take(pos + 1))[pos] == (*c, e));
                    }
                    Some((c, e))
                },
                None => {
                    proof {
                        lemma_expand_stops(v, es, pos + 1, es.len() as int);
                        assert(es.take(es.len() as int) =~= es);
                    }
                    self.consumed = self.to_visit.len();
                    None
                },
            }
        }
    }
}

} // verus!
