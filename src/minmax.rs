//! Depth-bounded minimax search with memoized results.
use std::rc::Rc;
use vstd::prelude::*;

pub mod cache;
pub mod frame;
pub mod game_value;
pub mod laws;
pub mod node_data;

pub use cache::{cache_wf, slots_of};
pub use game_value::{best_of, minimax, search, sound_slots, terminal_data};
pub use node_data::{improves, initial_score, NodeData, Score};

use crate::node::{leads_to, Node};
use crate::vertex::{children_of, lemma_expand_pairs, Vertex};
use cache::{find_node, lemma_slots_of, store_node};
use frame::{
    child_of, frame_ok, lemma_close_step, lemma_open_step, lemma_settled_step, lemma_stack_work,
    stack_ok, stack_work, Frame, Step,
};
use game_value::lemma_search_sound;
use laws::lemma_reuse_matches_fresh;

verus! {

/// Whether a node takes the largest or the smallest value of its children.
#[derive(Clone, Copy, PartialEq, Eq, Debug, Hash, Structural)]
pub enum NodeKind {
    Minimizer,
    Maximizer,
}

/// The value that a shared pointer points to.
spec fn pointee<V>(p: &Rc<V>) -> V {
    **p
}

/// The reward function `f` as a mathematical function.
pub open spec fn score_fn<V, R: Fn(&V) -> i64>(f: R) -> spec_fn(V) -> i64 {
    |v: V| choose|x: i64| call_ensures(f, (&v,), x)
}

/// The kind classifier `f` as a mathematical function.
pub open spec fn kind_fn<V, K: Fn(&V) -> NodeKind>(f: K) -> spec_fn(V) -> NodeKind {
    |v: V| choose|x: NodeKind| call_ensures(f, (&v,), x)
}

/// `f` accepts every vertex and gives one result for each.
pub open spec fn pure_fn<V, T, F: Fn(&V) -> T>(f: F) -> bool {
    &&& forall|v: &V| call_requires(f, (v,))
    &&& forall|v: &V, a: T, b: T|
        #![trigger call_ensures(f, (v,), a), call_ensures(f, (v,), b)]
        call_ensures(f, (v,), a) && call_ensures(f, (v,), b) ==> a == b
}

/// A pure reward function's mathematical form gives what a call returns.
proof fn lemma_score_fn<V, R: Fn(&V) -> i64>(f: R, v: &V, x: i64)
    requires
        pure_fn::<V, i64, R>(f),
        call_ensures(f, (v,), x),
    ensures
        score_fn::<V, R>(f)(*v) == x,
{
    let y = choose|y: i64| call_ensures(f, (v,), y);
    assert(call_ensures(f, (v,), y));
}

/// A pure kind classifier's mathematical form gives what a call returns.
proof fn lemma_kind_fn<V, K: Fn(&V) -> NodeKind>(f: K, v: &V, x: NodeKind)
    requires
        pure_fn::<V, NodeKind, K>(f),
        call_ensures(f, (v,), x),
    ensures
        kind_fn::<V, K>(f)(*v) == x,
{
    let y = choose|y: NodeKind| call_ensures(f, (v,), y);
    assert(call_ensures(f, (v,), y));
}

/// Every slot of `m` is what a search over the earlier slots `old` records
/// at that slot's depth.
pub open spec fn searched_from<V: Vertex>(
    rw: spec_fn(V) -> i64,
    kd: spec_fn(V) -> NodeKind,
    old: Map<V, NodeData<V::Edges>>,
    m: Map<V, NodeData<V::Edges>>,
) -> bool {
    forall|v: V| #[trigger] m.contains_key(v) ==> m[v] == search(rw, kd, old, v, m[v].depth)
}

/// Slots searched from sound slots are sound.
proof fn lemma_searched_sound<V: Vertex>(
    rw: spec_fn(V) -> i64,
    kd: spec_fn(V) -> NodeKind,
    old: Map<V, NodeData<V::Edges>>,
    m: Map<V, NodeData<V::Edges>>,
)
    requires
        sound_slots(rw, kd, old),
        searched_from(rw, kd, old, m),
    ensures
        sound_slots(rw, kd, m),
{
    assert forall|v: V| #[trigger] m.contains_key(v) implies {
        &&& m[v].kind == kd(v)
        &&& v.is_terminal_spec() ==> m[v] == terminal_data(rw, kd, v)
    } by {
        lemma_search_sound(rw, kd, old, v, m[v].depth);
    }
}

/// The search engine: a root, a depth bound, the two scoring functions and
/// the cache of the last search.
pub struct MinMax<V: Vertex, R: Fn(&V) -> i64, K: Fn(&V) -> NodeKind> {
    root: Rc<V>,
    reward: R,
    kind: K,
    depth: usize,
    cache: Vec<Node<V>>,
}

impl<V: Vertex, R: Fn(&V) -> i64, K: Fn(&V) -> NodeKind> MinMax<V, R, K> {
    pub closed spec fn root_spec(&self) -> V {
        *self.root
    }

    pub closed spec fn depth_spec(&self) -> usize {
        self.depth
    }

    pub closed spec fn reward_spec(&self) -> spec_fn(V) -> i64 {
        score_fn::<V, R>(self.reward)
    }

    pub closed spec fn kind_spec(&self) -> spec_fn(V) -> NodeKind {
        kind_fn::<V, K>(self.kind)
    }

    /// The cache, as a map from vertex to slot.
    pub closed spec fn slots(&self) -> Map<V, NodeData<V::Edges>> {
        slots_of(self.cache@)
    }

    /// What holds between searches and during one: the scoring functions are
    /// pure and the cache is sound.
    closed spec fn ready(&self) -> bool {
        &&& pure_fn::<V, i64, R>(self.reward)
        &&& pure_fn::<V, NodeKind, K>(self.kind)
        &&& cache_wf(self.cache@)
        &&& sound_slots(self.reward_spec(), self.kind_spec(), self.slots())
    }

    pub closed spec fn wf(&self) -> bool {
        &&& self.ready()
        &&& self.slots().contains_key(self.root_spec())
    }

    /// Searches from `root` to `depth` and keeps the results.
    pub fn new(root: Rc<V>, reward: R, kind: K, depth: usize) -> (r: Self)
        requires
            pure_fn::<V, i64, R>(reward),
            pure_fn::<V, NodeKind, K>(kind),
        ensures
            r.wf(),
            r.root_spec() == *root,
            r.depth_spec() == depth,
            r.reward_spec() == score_fn::<V, R>(reward),
            r.kind_spec() == kind_fn::<V, K>(kind),
            forall|v: &V, x: i64| #[trigger] call_ensures(reward, (v,), x) ==> r.reward_spec()(*v) == x,
            forall|v: &V, x: NodeKind| #[trigger] call_ensures(kind, (v,), x) ==> r.kind_spec()(*v) == x,
            r.slots().contains_key(*root),
            r.slots()[*root] == minimax(r.reward_spec(), r.kind_spec(), *root, depth),
            forall|v: V|
                #[trigger] r.slots().contains_key(v) ==> r.slots()[v] == minimax(
                    r.reward_spec(),
                    r.kind_spec(),
                    v,
                    r.slots()[v].depth,
                ),
    {
        let start = root.clone();
        let mut output = MinMax { root, reward, kind, depth, cache: Vec::new() };
        assert(output.slots() == Map::<V, NodeData<V::Edges>>::empty());
        let mut cache: Vec<Node<V>> = Vec::new();
        output.minmax(start, None, None, depth, &mut cache);
        proof {
            lemma_searched_sound(output.reward_spec(), output.kind_spec(), output.slots(), slots_of(cache@));
            assert forall|v: &V, x: i64| #[trigger] call_ensures(output.reward, (v,), x) implies output.reward_spec()(*v) == x by {
                lemma_score_fn(output.reward, v, x);
            }
            assert forall|v: &V, x: NodeKind| #[trigger] call_ensures(output.kind, (v,), x) implies output.kind_spec()(*v) == x by {
                lemma_kind_fn(output.kind, v, x);
            }
        }
        output.cache = cache;
        output
    }

    /// Re-roots the engine at `root` and searches again to the same depth.
    /// Slots of the previous search that are trusted deep enough are reused
    /// as they are; the cache is then replaced by the nodes this search
    /// reached.
    pub fn update(&mut self, root: Rc<V>)
        requires
            old(self).wf(),
        ensures
            final(self).wf(),
            final(self).root_spec() == *root,
            final(self).depth_spec() == old(self).depth_spec(),
            final(self).reward_spec() == old(self).reward_spec(),
            final(self).kind_spec() == old(self).kind_spec(),
            final(self).slots().contains_key(*root),
            final(self).slots()[*root] == search(
                old(self).reward_spec(),
                old(self).kind_spec(),
                old(self).slots(),
                *root,
                old(self).depth_spec(),
            ),
            searched_from(
                old(self).reward_spec(),
                old(self).kind_spec(),
                old(self).slots(),
                final(self).slots(),
            ),
    {
        self.root = root;
        self.minmax_search();
    }

    /// Searches from the current root to the engine's depth, reusing the
    /// slots of the previous search, and replaces the cache by the nodes it
    /// reaches. The nodes being searched are kept as frames on an explicit
    /// stack rather than on the call stack.
    fn minmax_search(&mut self)
        requires
            old(self).ready(),
        ensures
            final(self).wf(),
            final(self).root == old(self).root,
            final(self).depth == old(self).depth,
            final(self).reward == old(self).reward,
            final(self).kind == old(self).kind,
            final(self).slots()[old(self).root_spec()] == search(
                old(self).reward_spec(),
                old(self).kind_spec(),
                old(self).slots(),
                old(self).root_spec(),
                old(self).depth_spec(),
            ),
            searched_from(
                old(self).reward_spec(),
                old(self).kind_spec(),
                old(self).slots(),
                final(self).slots(),
            ),
    {
        let ghost rw = self.reward_spec();
        let ghost kd = self.kind_spec();
        let ghost old_slots = self.slots();
        let ghost root = self.root_spec();
        let mut cache: Vec<Node<V>> = Vec::new();
        assert(slots_of(cache@) == Map::<V, NodeData<V::Edges>>::empty());
        let start = self.root.clone();
        match self.open(start, None, None, self.depth, &mut cache) {
            Step::Settled(_) => {},
            Step::Open(frame) => {
                let mut stack: Vec<Frame<V>> = Vec::new();
                stack.push(frame);
                loop
                    invariant_except_break
                        stack.len() >= 1,
                        stack_ok(rw, kd, old_slots, stack@),
                        stack@[0].node.vertex_spec() == root,
                        stack@[0].remaining == self.depth,
                    invariant
                        self.ready(),
                        rw == self.reward_spec(),
                        kd == self.kind_spec(),
                        old_slots == self.slots(),
                        root == self.root_spec(),
                        cache_wf(cache@),
                        searched_from(rw, kd, old_slots, slots_of(cache@)),
                    ensures
                        slots_of(cache@).contains_key(root),
                        slots_of(cache@)[root] == search(rw, kd, old_slots, root, self.depth),
                    decreases stack_work(old_slots, stack@),
                {
                    let ghost s0 = stack@;
                    let ghost n = s0.len() as int;
                    let mut top = stack.pop().unwrap();
                    let ghost v = top.node.vertex_spec();
                    let ghost cs = children_of(v);
                    let ghost at = top.node.children.cursor() as int;
                    assert(s0[n - 1] == top);
                    assert(frame_ok(rw, kd, old_slots, top, at));
                    assert(n >= 2 ==> child_of(s0[n - 1], s0[n - 2]));
                    proof {
                        top.node.children.lemma_wf();
                        lemma_expand_pairs(v, v.edges_spec());
                    }
                    match top.node.children.next() {
                        Some((child, e)) => {
                            assert(cs[at].1 == e && v.next_spec(e) == Some(*child));
                            let link = top.node.vertex().clone();
                            match self.open(child, Some(link), Some(e), top.remaining - 1, &mut cache) {
                                Step::Settled(child_data) => {
                                    top.data.update(child_data.value, e);
                                    stack.push(top);
                                    proof {
                                        assert(frame_ok(rw, kd, old_slots, top, at + 1));
                                        lemma_settled_step(rw, kd, old_slots, s0, top);
                                        lemma_stack_work(old_slots, stack@);
                                    }
                                },
                                Step::Open(f) => {
                                    stack.push(top);
                                    stack.push(f);
                                    proof {
                                        assert(frame_ok(rw, kd, old_slots, top, at));
                                        lemma_open_step(rw, kd, old_slots, s0, top, f);
                                        lemma_stack_work(old_slots, stack@);
                                    }
                                },
                            }
                        },
                        None => {
                            let e = top.node.edge;
                            let r = self.finish(top, &mut cache);
                            if stack.len() == 0 {
                                break;
                            }
                            let mut parent = stack.pop().unwrap();
                            let ghost c = parent.node.children.cursor() as int;
                            proof {
                                assert(s0[n - 2] == parent);
                                assert(frame_ok(rw, kd, old_slots, s0[n - 2], c - 1));
                                assert(child_of(s0[n - 1], s0[n - 2]));
                            }
                            parent.data.update(r.value, e.unwrap());
                            stack.push(parent);
                            proof {
                                assert(frame_ok(rw, kd, old_slots, parent, c));
                                lemma_close_step(rw, kd, old_slots, s0, parent);
                                lemma_stack_work(old_slots, stack@);
                            }
                        },
                    }
                }
            },
        }
        proof {
            lemma_searched_sound(rw, kd, old_slots, slots_of(cache@));
        }
        self.cache = cache;
    }

    /// The value and best edge at the root; `None` as value when the root has
    /// no slot.
    pub fn get_root_value_edge(&self) -> (r: (Option<Score>, Option<V::Edges>))
        requires
            self.wf(),
        ensures
            r == self.root_value_edge(),
    {
        proof {
            lemma_slots_of(self.cache@);
        }
        match find_node(&self.cache, &*self.root) {
            Some(i) => (Some(self.cache[i].data.value), self.cache[i].data.edge),
            None => (None, None),
        }
    }

    pub fn root(&self) -> (r: &Rc<V>)
        ensures
            **r == self.root_spec(),
    {
        &self.root
    }

    pub fn depth(&self) -> (r: usize)
        ensures
            r == self.depth_spec(),
    {
        self.depth
    }

    /// The nodes of the last search, one per vertex reached.
    pub fn cache(&self) -> (r: &Vec<Node<V>>)
        requires
            self.wf(),
        ensures
            cache_wf(r@),
            slots_of(r@) == self.slots(),
    {
        &self.cache
    }

    /// The value and best edge that the cache holds for the root.
    pub open spec fn root_value_edge(&self) -> (Option<Score>, Option<V::Edges>) {
        if self.slots().contains_key(self.root_spec()) {
            (Some(self.slots()[self.root_spec()].value), self.slots()[self.root_spec()].edge)
        } else {
            (None, None)
        }
    }

    /// Determinism: two engines built from the same root, depth and scoring
    /// functions report the same value and edge at the root.
    pub proof fn lemma_construction_deterministic(a: &Self, b: &Self)
        requires
            a.wf(),
            b.wf(),
            a.root_spec() == b.root_spec(),
            a.depth_spec() == b.depth_spec(),
            a.reward_spec() == b.reward_spec(),
            a.kind_spec() == b.kind_spec(),
            a.slots()[a.root_spec()] == minimax(
                a.reward_spec(),
                a.kind_spec(),
                a.root_spec(),
                a.depth_spec(),
            ),
            b.slots()[b.root_spec()] == minimax(
                b.reward_spec(),
                b.kind_spec(),
                b.root_spec(),
                b.depth_spec(),
            ),
        ensures
            a.root_value_edge() == b.root_value_edge(),
    {
    }

    /// Terminal fixpoint: every cached terminal vertex holds its reward,
    /// no edge, and the maximal trust depth.
    pub proof fn lemma_terminal_slots(&self)
        requires
            self.wf(),
        ensures
            forall|v: V|
                #[trigger] self.slots().contains_key(v) && v.is_terminal_spec() ==> self.slots()[v]
                    == terminal_data(self.reward_spec(), self.kind_spec(), v),
    {
    }

    /// Reuse correctness for re-rooting: when every slot of `before` holds
    /// the value and edge of a search from scratch at each depth up to its
    /// own, the engine that `update` leaves reports at its new root the value
    /// and edge of a search from scratch.
    pub proof fn lemma_update_matches_fresh(before: &Self, after: &Self)
        requires
            before.wf(),
            after.wf(),
            after.depth_spec() == before.depth_spec(),
            after.reward_spec() == before.reward_spec(),
            after.kind_spec() == before.kind_spec(),
            after.slots()[after.root_spec()] == search(
                before.reward_spec(),
                before.kind_spec(),
                before.slots(),
                after.root_spec(),
                before.depth_spec(),
            ),
            forall|w: V, e: usize|
                #![trigger before.slots().contains_key(w), minimax(before.reward_spec(), before.kind_spec(), w, e)]
                before.slots().contains_key(w) && e <= before.slots()[w].depth ==> {
                    &&& minimax(before.reward_spec(), before.kind_spec(), w, e).value
                        == before.slots()[w].value
                    &&& minimax(before.reward_spec(), before.kind_spec(), w, e).edge
                        == before.slots()[w].edge
                },
        ensures
            after.root_value_edge() == (
                Some(
                    minimax(
                        after.reward_spec(),
                        after.kind_spec(),
                        after.root_spec(),
                        after.depth_spec(),
                    ).value,
                ),
                minimax(after.reward_spec(), after.kind_spec(), after.root_spec(), after.depth_spec()).edge,
            ),
    {
        lemma_reuse_matches_fresh(
            before.reward_spec(),
            before.kind_spec(),
            before.slots(),
            after.root_spec(),
            before.depth_spec(),
        );
    }

    fn reward_of(&self, v: &V) -> (r: i64)
        requires
            pure_fn::<V, i64, R>(self.reward),
        ensures
            r == (self.reward_spec())(*v),
    {
        let r = (self.reward)(v);
        proof {
            lemma_score_fn(self.reward, v, r);
        }
        r
    }

    fn kind_of(&self, v: &V) -> (r: NodeKind)
        requires
            pure_fn::<V, NodeKind, K>(self.kind),
        ensures
            r == (self.kind_spec())(*v),
    {
        let r = (self.kind)(v);
        proof {
            lemma_kind_fn(self.kind, v, r);
        }
        r
    }

    /// Starts the search of `base` to `depth`. A slot of the previous search
    /// trusted deep enough, a terminal vertex and depth 0 settle at once, and
    /// their node is stored; any other vertex comes back as a frame whose
    /// children are still to be searched.
    fn open(
        &self,
        base: Rc<V>,
        parent: Option<Rc<V>>,
        edge: Option<V::Edges>,
        depth: usize,
        cache: &mut Vec<Node<V>>,
    ) -> (r: Step<V>)
        requires
            self.ready(),
            cache_wf(old(cache)@),
            searched_from(self.reward_spec(), self.kind_spec(), self.slots(), slots_of(old(cache)@)),
            leads_to(parent, edge, *base),
        ensures
            cache_wf(final(cache)@),
            searched_from(self.reward_spec(), self.kind_spec(), self.slots(), slots_of(final(cache)@)),
            match r {
                Step::Settled(d) => {
                    &&& d == search(self.reward_spec(), self.kind_spec(), self.slots(), *base, depth)
                    &&& slots_of(final(cache)@).contains_key(*base)
                    &&& slots_of(final(cache)@)[*base] == d
                },
                Step::Open(f) => {
                    &&& frame_ok(self.reward_spec(), self.kind_spec(), self.slots(), f, 0)
                    &&& f.node.vertex_spec() == *base
                    &&& f.remaining == depth
                    &&& f.node.children.cursor() == 0
                    &&& f.node.parent == parent
                    &&& f.node.edge == edge
                    &&& final(cache)@ == old(cache)@
                },
            },
    {
        let ghost rw = self.reward_spec();
        let ghost kd = self.kind_spec();
        let ghost old_slots = self.slots();
        let ghost v: V = pointee(&base);
        proof {
            lemma_slots_of(self.cache@);
        }
        let mut node = match find_node(&self.cache, &*base) {
            Some(i) => {
                let data = self.cache[i].data;
                if data.depth >= depth {
                    let mut kept = self.cache[i].duplicate();
                    kept.parent = parent;
                    kept.edge = edge;
                    store_node(cache, kept);
                    return Step::Settled(data);
                }
                let mut resumed = self.cache[i].duplicate();
                resumed.parent = parent;
                resumed.edge = edge;
                resumed
            },
            None => Node::new(&base, parent, edge, NodeData::new(self.kind_of(&*base))),
        };
        assert(!(old_slots.contains_key(v) && old_slots[v].depth >= depth));
        let k = self.kind_of(&*base);
        if base.is_terminal() || depth == 0 {
            node.data = NodeData {
                kind: k,
                depth: if base.is_terminal() {
                    usize::MAX
                } else {
                    0
                },
                value: Score::Finite(self.reward_of(&*base)),
                edge: None,
            };
            let r = node.data;
            proof {
                lemma_search_sound(rw, kd, old_slots, v, depth);
            }
            store_node(cache, node);
            Step::Settled(r)
        } else {
            node.reset_children();
            Step::Open(Frame { node, data: NodeData::new(k), remaining: depth })
        }
    }

    /// Closes a frame whose children have all been searched: its slot takes
    /// the frame's depth, and its node is stored.
    fn finish(&self, frame: Frame<V>, cache: &mut Vec<Node<V>>) -> (r: NodeData<V::Edges>)
        requires
            self.ready(),
            cache_wf(old(cache)@),
            searched_from(self.reward_spec(), self.kind_spec(), self.slots(), slots_of(old(cache)@)),
            frame_ok(
                self.reward_spec(),
                self.kind_spec(),
                self.slots(),
                frame,
                children_of(frame.node.vertex_spec()).len() as int,
            ),
        ensures
            r == search(
                self.reward_spec(),
                self.kind_spec(),
                self.slots(),
                frame.node.vertex_spec(),
                frame.remaining,
            ),
            cache_wf(final(cache)@),
            searched_from(self.reward_spec(), self.kind_spec(), self.slots(), slots_of(final(cache)@)),
            slots_of(final(cache)@).contains_key(frame.node.vertex_spec()),
            slots_of(final(cache)@)[frame.node.vertex_spec()] == r,
    {
        let Frame { node, data, remaining } = frame;
        let mut node = node;
        let mut data = data;
        node.reset_children();
        data.depth = remaining;
        node.data = data;
        store_node(cache, node);
        data
    }

    /// Searches `base` to `depth`, recursing into the children, and stores
    /// every node it settles in `cache`.
    fn minmax(
        &self,
        base: Rc<V>,
        parent: Option<Rc<V>>,
        edge: Option<V::Edges>,
        depth: usize,
        cache: &mut Vec<Node<V>>,
    ) -> (r: NodeData<V::Edges>)
        requires
            self.ready(),
            cache_wf(old(cache)@),
            searched_from(self.reward_spec(), self.kind_spec(), self.slots(), slots_of(old(cache)@)),
            leads_to(parent, edge, *base),
        ensures
            r == search(self.reward_spec(), self.kind_spec(), self.slots(), *base, depth),
            cache_wf(final(cache)@),
            searched_from(self.reward_spec(), self.kind_spec(), self.slots(), slots_of(final(cache)@)),
            slots_of(final(cache)@).contains_key(*base),
            slots_of(final(cache)@)[*base] == r,
        decreases depth,
    {
        let ghost rw = self.reward_spec();
        let ghost kd = self.kind_spec();
        let ghost old_slots = self.slots();
        match self.open(base, parent, edge, depth, cache) {
            Step::Settled(data) => data,
            Step::Open(frame) => {
                let mut frame = frame;
                let ghost v = frame.node.vertex_spec();
                let ghost cs = children_of(v);
                loop
                    invariant
                        self.ready(),
                        rw == self.reward_spec(),
                        kd == self.kind_spec(),
                        old_slots == self.slots(),
                        frame.node.vertex_spec() == v,
                        frame.remaining == depth,
                        cs == children_of(v),
                        frame_ok(rw, kd, old_slots, frame, frame.node.children.cursor() as int),
                        cache_wf(cache@),
                        searched_from(rw, kd, old_slots, slots_of(cache@)),
                    ensures
                        frame.node.vertex_spec() == v,
                        frame.remaining == depth,
                        frame_ok(rw, kd, old_slots, frame, cs.len() as int),
                        cache_wf(cache@),
                        searched_from(rw, kd, old_slots, slots_of(cache@)),
                    decreases cs.len() - frame.node.children.cursor(),
                {
                    proof {
                        frame.node.children.lemma_wf();
                        lemma_expand_pairs(v, v.edges_spec());
                    }
                    let ghost at = frame.node.children.cursor() as int;
                    match frame.node.children.next() {
                        None => {
                            break;
                        },
                        Some((child, e)) => {
                            assert(cs[at].1 == e && v.next_spec(e) == Some(*child));
                            let link = frame.node.vertex().clone();
                            let child_data = self.minmax(child, Some(link), Some(e), depth - 1, cache);
                            frame.data.update(child_data.value, e);
                        },
                    }
                }
                self.finish(frame, cache)
            },
        }
    }
}

} // verus!
