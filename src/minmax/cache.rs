//! The search cache: nodes held in a vector, one per vertex.
use vstd::prelude::*;

use super::node_data::NodeData;
use crate::node::Node;
use crate::vertex::Vertex;

verus! {

/// The slots that the nodes hold, keyed by vertex.
pub open spec fn slots_of<V: Vertex>(s: Seq<Node<V>>) -> Map<V, NodeData<V::Edges>>
    decreases s.len(),
{
    if s.len() == 0 {
        Map::empty()
    } else {
        slots_of(s.drop_last()).insert(s.last().vertex_spec(), s.last().data)
    }
}

/// No vertex has two nodes, and every node is well formed and linked to the
/// parent it records.
pub open spec fn cache_wf<V: Vertex>(s: Seq<Node<V>>) -> bool {
    &&& forall|i: int| 0 <= i < s.len() ==> (#[trigger] s[i]).wf() && s[i].linked()
    &&& forall|i: int, j: int|
        0 <= i < j < s.len() ==> (#[trigger] s[i]).vertex_spec() != (#[trigger] s[j]).vertex_spec()
}

/// The map holds exactly the vertices of the nodes, each with its node's slot.
pub proof fn lemma_slots_of<V: Vertex>(s: Seq<Node<V>>)
    requires
        cache_wf(s),
    ensures
        forall|i: int|
            0 <= i < s.len() ==> {
                &&& slots_of(s).contains_key(#[trigger] s[i].vertex_spec())
                &&& slots_of(s)[s[i].vertex_spec()] == s[i].data
            },
        forall|v: V|
            #[trigger] slots_of(s).contains_key(v) ==> exists|i: int|
                0 <= i < s.len() && (#[trigger] s[i]).vertex_spec() == v,
    decreases s.len(),
{
    if s.len() > 0 {
        let t = s.drop_last();
        assert forall|i: int, j: int|
            0 <= i < j < t.len() implies (#[trigger] t[i]).vertex_spec() != (#[trigger] t[j]).vertex_spec() by {
            assert(t[i] == s[i] && t[j] == s[j]);
        }
        lemma_slots_of(t);
        assert forall|i: int| 0 <= i < s.len() implies {
            &&& slots_of(s).contains_key(#[trigger] s[i].vertex_spec())
            &&& slots_of(s)[s[i].vertex_spec()] == s[i].data
        } by {
            if i < s.len() - 1 {
                assert(t[i] == s[i]);
                assert(s[i].vertex_spec() != s[s.len() - 1].vertex_spec());
            }
        }
        assert forall|v: V| #[trigger] slots_of(s).contains_key(v) implies exists|i: int|
            0 <= i < s.len() && (#[trigger] s[i]).vertex_spec() == v by {
            if v != s.last().vertex_spec() {
                let i = choose|i: int| 0 <= i < t.len() && (#[trigger] t[i]).vertex_spec() == v;
                assert(s[i] == t[i]);
            } else {
                assert(s[s.len() - 1].vertex_spec() == v);
            }
        }
    }
}

/// Replacing a vertex's node replaces its slot.
pub proof fn lemma_slots_of_update<V: Vertex>(s: Seq<Node<V>>, i: int, n: Node<V>)
    requires
        cache_wf(s),
        0 <= i < s.len(),
        s[i].vertex_spec() == n.vertex_spec(),
    ensures
        slots_of(s.update(i, n)) == slots_of(s).insert(n.vertex_spec(), n.data),
    decreases s.len(),
{
    let u = s.update(i, n);
    if i == s.len() - 1 {
        assert(u.drop_last() =~= s.drop_last());
    } else {
        let t = s.drop_last();
        assert forall|a: int, b: int|
            0 <= a < b < t.len() implies (#[trigger] t[a]).vertex_spec() != (#[trigger] t[b]).vertex_spec() by {
            assert(t[a] == s[a] && t[b] == s[b]);
        }
        lemma_slots_of_update(t, i, n);
        assert(u.drop_last() =~= t.update(i, n));
        assert(s.last().vertex_spec() != n.vertex_spec());
        assert(slots_of(u) =~= slots_of(s).insert(n.vertex_spec(), n.data));
    }
}

/// The position of the node of `v`, if there is one.
pub fn find_node<V: Vertex>(nodes: &Vec<Node<V>>, v: &V) -> (r: Option<usize>)
    requires
        cache_wf(nodes@),
    ensures
        match r {
            Some(i) => i < nodes.len() && nodes@[i as int].vertex_spec() == *v,
            None => forall|i: int| 0 <= i < nodes.len() ==> (#[trigger] nodes@[i]).vertex_spec() != *v,
        },
{
    let mut i: usize = 0;
    while i < nodes.len()
        invariant
            cache_wf(nodes@),
            i <= nodes.len(),
            forall|j: int| 0 <= j < i ==> (#[trigger] nodes@[j]).vertex_spec() != *v,
        decreases nodes.len() - i,
    {
        if nodes[i].vertex().same_vertex(v) {
            return Some(i);
        }
        i = i + 1;
    }
    None
}

/// Stores `node`, replacing the node of the same vertex if there is one.
pub fn store_node<V: Vertex>(nodes: &mut Vec<Node<V>>, node: Node<V>)
    requires
        cache_wf(old(nodes)@),
        node.wf(),
        node.linked(),
    ensures
        cache_wf(final(nodes)@),
        slots_of(final(nodes)@) == slots_of(old(nodes)@).insert(node.vertex_spec(), node.data),
{
    let ghost n = node;
    match find_node(nodes, &**node.vertex()) {
        Some(i) => {
            proof {
                lemma_slots_of_update(nodes@, i as int, n);
            }
            nodes.set(i, node);
            assert(nodes@ == old(nodes)@.update(i as int, n));
        },
        None => {
            nodes.push(node);
            assert(nodes@.drop_last() =~= old(nodes)@);
        },
    }
}

} // verus!
