//! Frames of a search in progress, and the work a search still has to do.
use vstd::prelude::*;

use super::game_value::best_of;
use super::node_data::NodeData;
use super::NodeKind;
use crate::node::Node;
use crate::vertex::{children_of, Vertex};

verus! {

/// A node whose children are being searched, with its running slot and the
/// depth it is searched to.
pub struct Frame<V: Vertex> {
    pub node: Node<V>,
    pub data: NodeData<V::Edges>,
    pub remaining: usize,
}

/// What starting the search of a vertex gives: its slot at once, or a frame
/// whose children are still to be searched.
pub enum Step<V: Vertex> {
    Settled(NodeData<V::Edges>),
    Open(Frame<V>),
}

/// The frame's vertex needs its children searched, and its running slot
/// holds the best of its first `n` children.
pub open spec fn frame_ok<V: Vertex>(
    rw: spec_fn(V) -> i64,
    kd: spec_fn(V) -> NodeKind,
    old: Map<V, NodeData<V::Edges>>,
    f: Frame<V>,
    n: int,
) -> bool {
    let v = f.node.vertex_spec();
    let cs = children_of(v);
    &&& f.node.wf()
    &&& f.node.linked()
    &&& f.remaining > 0
    &&& !v.is_terminal_spec()
    &&& !(old.contains_key(v) && old[v].depth >= f.remaining)
    &&& f.data.kind == kd(v)
    &&& f.data.depth == 0
    &&& 0 <= n <= cs.len()
    &&& f.node.children.cursor() <= cs.len()
    &&& (f.data.value, f.data.edge) == best_of(
        rw,
        kd,
        old,
        kd(v),
        cs,
        (f.remaining - 1) as usize,
        n as nat,
    )
}

/// `f` searches the child that its parent frame `p` reached last.
pub open spec fn child_of<V: Vertex>(f: Frame<V>, p: Frame<V>) -> bool {
    let c = p.node.children.cursor() as int;
    let cs = children_of(p.node.vertex_spec());
    &&& c >= 1
    &&& f.node.vertex_spec() == cs[c - 1].0
    &&& f.node.edge == Some(cs[c - 1].1)
    &&& f.remaining == p.remaining - 1
}

/// A stack of frames, each searching a child of the one below it. The top
/// frame's slot holds the best of the children it has reached; a frame below
/// it still waits for the value of the child it reached last.
pub open spec fn stack_ok<V: Vertex>(
    rw: spec_fn(V) -> i64,
    kd: spec_fn(V) -> NodeKind,
    old: Map<V, NodeData<V::Edges>>,
    s: Seq<Frame<V>>,
) -> bool {
    &&& forall|k: int|
        0 <= k < s.len() ==> frame_ok(
            rw,
            kd,
            old,
            #[trigger] s[k],
            s[k].node.children.cursor() - (if k < s.len() - 1 {
                1int
            } else {
                0int
            }),
        )
    &&& forall|k: int| 1 <= k < s.len() ==> child_of(#[trigger] s[k], s[k - 1])
}

/// How many vertices a search of `v` to depth `d` visits.
pub open spec fn work<V: Vertex>(old: Map<V, NodeData<V::Edges>>, v: V, d: usize) -> nat
    decreases d as int, 1int, 0int,
{
    if (old.contains_key(v) && old[v].depth >= d) || v.is_terminal_spec() || d == 0 {
        1
    } else {
        let cs = children_of(v);
        1 + work_children(old, cs, (d - 1) as usize, cs.len())
    }
}

/// How many vertices the searches of the first `n` children visit.
pub open spec fn work_children<V: Vertex>(
    old: Map<V, NodeData<V::Edges>>,
    cs: Seq<(V, V::Edges)>,
    d: usize,
    n: nat,
) -> nat
    decreases d as int + 1, 0int, n as int,
{
    if n == 0 || n > cs.len() {
        0
    } else {
        work_children(old, cs, d, (n - 1) as nat) + work(old, cs[n - 1].0, d)
    }
}

/// The work left to a frame: twice that of its unsearched children, plus one
/// for closing it.
pub open spec fn frame_work<V: Vertex>(old: Map<V, NodeData<V::Edges>>, f: Frame<V>) -> int {
    let cs = children_of(f.node.vertex_spec());
    let d = (f.remaining - 1) as usize;
    2 * (work_children(old, cs, d, cs.len()) - work_children(old, cs, d, f.node.children.cursor()))
        + 1
}

/// The work left to a stack of frames.
pub open spec fn stack_work<V: Vertex>(old: Map<V, NodeData<V::Edges>>, s: Seq<Frame<V>>) -> int
    decreases s.len(),
{
    if s.len() == 0 {
        0
    } else {
        stack_work(old, s.drop_last()) + frame_work(old, s.last())
    }
}

/// More children never take less work.
pub proof fn lemma_work_children_grows<V: Vertex>(
    old: Map<V, NodeData<V::Edges>>,
    cs: Seq<(V, V::Edges)>,
    d: usize,
    m: nat,
    n: nat,
)
    requires
        m <= n <= cs.len(),
    ensures
        work_children(old, cs, d, m) <= work_children(old, cs, d, n),
    decreases n - m,
{
    if m < n {
        lemma_work_children_grows(old, cs, d, m, (n - 1) as nat);
    }
}

/// Every frame of a stack has work left, so the stack's work is at least
/// its height.
pub proof fn lemma_stack_work<V: Vertex>(old: Map<V, NodeData<V::Edges>>, s: Seq<Frame<V>>)
    requires
        forall|k: int|
            0 <= k < s.len() ==> (#[trigger] s[k]).node.children.cursor() <= children_of(
                s[k].node.vertex_spec(),
            ).len(),
    ensures
        stack_work(old, s) >= s.len(),
    decreases s.len(),
{
    if s.len() > 0 {
        let t = s.drop_last();
        assert forall|k: int| 0 <= k < t.len() implies (#[trigger] t[k]).node.children.cursor()
            <= children_of(t[k].node.vertex_spec()).len() by {
            assert(t[k] == s[k]);
        }
        lemma_stack_work(old, t);
        let f = s.last();
        let cs = children_of(f.node.vertex_spec());
        assert(s[s.len() - 1] == f);
        lemma_work_children_grows(
            old,
            cs,
            (f.remaining - 1) as usize,
            f.node.children.cursor(),
            cs.len(),
        );
    }
}

/// `t` is the frame `f` further along: same node, same depth, same link.
pub open spec fn same_place<V: Vertex>(t: Frame<V>, f: Frame<V>) -> bool {
    &&& t.node.vertex_spec() == f.node.vertex_spec()
    &&& t.remaining == f.remaining
    &&& t.node.edge == f.node.edge
}

/// The top frame took in a child that settled at once.
pub proof fn lemma_settled_step<V: Vertex>(
    rw: spec_fn(V) -> i64,
    kd: spec_fn(V) -> NodeKind,
    old: Map<V, NodeData<V::Edges>>,
    s0: Seq<Frame<V>>,
    t: Frame<V>,
)
    requires
        s0.len() >= 1,
        stack_ok(rw, kd, old, s0),
        same_place(t, s0.last()),
        t.node.children.cursor() == s0.last().node.children.cursor() + 1,
        frame_ok(rw, kd, old, t, t.node.children.cursor() as int),
    ensures
        stack_ok(rw, kd, old, s0.drop_last().push(t)),
        stack_work(old, s0.drop_last().push(t)) < stack_work(old, s0),
        same_place(s0.drop_last().push(t)[0], s0[0]),
{
    let n = s0.len() as int;
    let s1 = s0.drop_last().push(t);
    assert(s1.drop_last() =~= s0.drop_last());
    assert(s0[n - 1] == s0.last());
    assert forall|k: int| 0 <= k < s1.len() implies frame_ok(
        rw,
        kd,
        old,
        #[trigger] s1[k],
        s1[k].node.children.cursor() - (if k < s1.len() - 1 {
            1int
        } else {
            0int
        }),
    ) by {
        if k < n - 1 {
            assert(s1[k] == s0[k]);
        }
    }
    assert forall|k: int| 1 <= k < s1.len() implies child_of(#[trigger] s1[k], s1[k - 1]) by {
        assert(child_of(s0[k], s0[k - 1]));
        if k < n - 1 {
            assert(s1[k] == s0[k] && s1[k - 1] == s0[k - 1]);
        } else {
            assert(s1[k - 1] == s0[k - 1]);
        }
    }
    let f = s0.last();
    let cs = children_of(f.node.vertex_spec());
    let c = f.node.children.cursor();
    assert(work_children(old, cs, (f.remaining - 1) as usize, c + 1) == work_children(
        old,
        cs,
        (f.remaining - 1) as usize,
        c,
    ) + work(old, cs[c as int].0, (f.remaining - 1) as usize));
}

/// The top frame reached a child that needs a frame of its own.
pub proof fn lemma_open_step<V: Vertex>(
    rw: spec_fn(V) -> i64,
    kd: spec_fn(V) -> NodeKind,
    old: Map<V, NodeData<V::Edges>>,
    s0: Seq<Frame<V>>,
    t: Frame<V>,
    f: Frame<V>,
)
    requires
        s0.len() >= 1,
        stack_ok(rw, kd, old, s0),
        same_place(t, s0.last()),
        t.node.children.cursor() == s0.last().node.children.cursor() + 1,
        frame_ok(rw, kd, old, t, t.node.children.cursor() - 1),
        frame_ok(rw, kd, old, f, 0),
        f.node.children.cursor() == 0,
        child_of(f, t),
    ensures
        stack_ok(rw, kd, old, s0.drop_last().push(t).push(f)),
        stack_work(old, s0.drop_last().push(t).push(f)) < stack_work(old, s0),
        same_place(s0.drop_last().push(t).push(f)[0], s0[0]),
{
    let n = s0.len() as int;
    let s1 = s0.drop_last().push(t);
    let s2 = s1.push(f);
    assert(s1.drop_last() =~= s0.drop_last());
    assert(s2.drop_last() =~= s1);
    assert(s0[n - 1] == s0.last());
    assert forall|k: int| 0 <= k < s2.len() implies frame_ok(
        rw,
        kd,
        old,
        #[trigger] s2[k],
        s2[k].node.children.cursor() - (if k < s2.len() - 1 {
            1int
        } else {
            0int
        }),
    ) by {
        if k < n - 1 {
            assert(s2[k] == s0[k]);
        } else if k == n - 1 {
            assert(s2[k] == t);
        } else {
            assert(s2[k] == f);
        }
    }
    assert forall|k: int| 1 <= k < s2.len() implies child_of(#[trigger] s2[k], s2[k - 1]) by {
        if k < n {
            assert(child_of(s0[k], s0[k - 1]));
        }
        if k < n - 1 {
            assert(s2[k] == s0[k] && s2[k - 1] == s0[k - 1]);
        } else if k == n - 1 {
            assert(s2[k] == t && s2[k - 1] == s0[k - 1]);
        } else {
            assert(s2[k] == f && s2[k - 1] == t);
        }
    }
    let p = s0.last();
    let cs = children_of(p.node.vertex_spec());
    let c = p.node.children.cursor();
    let d = (p.remaining - 1) as usize;
    assert(work_children(old, cs, d, c + 1) == work_children(old, cs, d, c) + work(
        old,
        cs[c as int].0,
        d,
    ));
    assert(f.node.vertex_spec() == cs[c as int].0);
    let fcs = children_of(f.node.vertex_spec());
    assert(work(old, f.node.vertex_spec(), d) == 1 + work_children(
        old,
        fcs,
        (d - 1) as usize,
        fcs.len(),
    ));
    assert(work_children(old, fcs, (d - 1) as usize, 0) == 0);
    assert(stack_work(old, s2) == stack_work(old, s1) + frame_work(old, f));
    assert(stack_work(old, s1) == stack_work(old, s0.drop_last()) + frame_work(old, t));
    assert(stack_work(old, s0) == stack_work(old, s0.drop_last()) + frame_work(old, p));
}

/// The top frame closed, and its parent took in its value.
pub proof fn lemma_close_step<V: Vertex>(
    rw: spec_fn(V) -> i64,
    kd: spec_fn(V) -> NodeKind,
    old: Map<V, NodeData<V::Edges>>,
    s0: Seq<Frame<V>>,
    p: Frame<V>,
)
    requires
        s0.len() >= 2,
        stack_ok(rw, kd, old, s0),
        s0.last().node.children.cursor() == children_of(s0.last().node.vertex_spec()).len(),
        same_place(p, s0[s0.len() - 2]),
        p.node.children.cursor() == s0[s0.len() - 2].node.children.cursor(),
        frame_ok(rw, kd, old, p, p.node.children.cursor() as int),
    ensures
        stack_ok(rw, kd, old, s0.drop_last().drop_last().push(p)),
        stack_work(old, s0.drop_last().drop_last().push(p)) < stack_work(old, s0),
        same_place(s0.drop_last().drop_last().push(p)[0], s0[0]),
{
    let n = s0.len() as int;
    let s1 = s0.drop_last().drop_last().push(p);
    assert(s1.drop_last() =~= s0.drop_last().drop_last());
    assert(s0.drop_last().last() == s0[n - 2]);
    assert(s0.last() == s0[n - 1]);
    assert forall|k: int| 0 <= k < s1.len() implies frame_ok(
        rw,
        kd,
        old,
        #[trigger] s1[k],
        s1[k].node.children.cursor() - (if k < s1.len() - 1 {
            1int
        } else {
            0int
        }),
    ) by {
        if k < n - 2 {
            assert(s1[k] == s0[k]);
        }
    }
    assert forall|k: int| 1 <= k < s1.len() implies child_of(#[trigger] s1[k], s1[k - 1]) by {
        assert(child_of(s0[k], s0[k - 1]));
        if k < n - 2 {
            assert(s1[k] == s0[k] && s1[k - 1] == s0[k - 1]);
        } else {
            assert(s1[k - 1] == s0[k - 1]);
        }
    }
    assert(stack_work(old, s1) == stack_work(old, s0.drop_last().drop_last()) + frame_work(old, p));
    assert(stack_work(old, s0.drop_last()) == stack_work(old, s0.drop_last().drop_last())
        + frame_work(old, s0[n - 2]));
    assert(stack_work(old, s0) == stack_work(old, s0.drop_last()) + frame_work(old, s0[n - 1]));
}

} // verus!
