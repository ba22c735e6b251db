//! The unit of the search: a vertex, its lazily expanded children, the way it
//! was reached and its result slot.
use std::rc::Rc;
use vstd::prelude::*;

use crate::minmax::NodeData;
use crate::vertex::Vertex;
use crate::vertex_cached::VertexCached;

verus! {

/// Either both are absent, or taking `edge` from `parent` reaches `v`.
pub open spec fn leads_to<V: Vertex>(parent: Option<Rc<V>>, edge: Option<V::Edges>, v: V) -> bool {
    match (parent, edge) {
        (Some(p), Some(e)) => (*p).next_spec(e) == Some(v),
        (None, None) => true,
        _ => false,
    }
}

/// A search node. `parent` and `edge` record how the node was last reached;
/// they only help navigation, as the cache is keyed by vertex.
pub struct Node<V: Vertex> {
    pub children: VertexCached<V>,
    pub parent: Option<Rc<V>>,
    pub edge: Option<V::Edges>,
    pub data: NodeData<V::Edges>,
}

impl<V: Vertex> Node<V> {
    pub open spec fn vertex_spec(&self) -> V {
        self.children.vertex_spec()
    }

    pub open spec fn wf(&self) -> bool {
        self.children.wf()
    }

    /// The recorded parent and edge, when present, lead to this node's vertex.
    pub open spec fn linked(&self) -> bool {
        leads_to(self.parent, self.edge, self.vertex_spec())
    }

    pub fn new(
        key: &Rc<V>,
        parent: Option<Rc<V>>,
        edge: Option<V::Edges>,
        data: NodeData<V::Edges>,
    ) -> (r: Self)
        ensures
            r.wf(),
            r.vertex_spec() == **key,
            r.children.cursor() == 0,
            r.parent == parent,
            r.edge == edge,
            r.data == data,
    {
        Node { children: VertexCached::new(key), parent, edge, data }
    }

    pub fn vertex(&self) -> (r: &Rc<V>)
        requires
            self.wf(),
        ensures
            **r == self.vertex_spec(),
    {
        self.children.vertex()
    }

    /// Rewinds the traversal of the children without recomputing them.
    pub fn reset_children(&mut self)
        requires
            old(self).wf(),
        ensures
            final(self).wf(),
            final(self).vertex_spec() == old(self).vertex_spec(),
            final(self).children.cursor() == 0,
            final(self).parent == old(self).parent,
            final(self).edge == old(self).edge,
            final(self).data == old(self).data,
    {
        self.children.reset();
    }

    /// A copy of the node that shares its vertices and computed children.
    pub fn duplicate(&self) -> (r: Self)
        requires
            self.wf(),
        ensures
            r.wf(),
            r.vertex_spec() == self.vertex_spec(),
            r.children.cursor() == self.children.cursor(),
            r.parent == self.parent,
            r.edge == self.edge,
            r.data == self.data,
    {
        let parent = match &self.parent {
            Some(p) => Some(p.clone()),
            None => None,
        };
        Node { children: self.children.duplicate(), parent, edge: self.edge, data: self.data }
    }
}

} // verus!
