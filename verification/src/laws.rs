//! Laws of the two traversals, stated over the ghost model and proved once
//! and for all: how many visits a traversal makes, in what order, with what
//! positions, and what it leaves of the tree.

use vstd::prelude::*;

use crate::node::spec_bubble_down;
use crate::node::spec_bubble_down_kids;
use crate::node::spec_bubble_up;
use crate::node::spec_bubble_up_kids;
use crate::node::NodeModel;
use crate::node::Visitor;

verus! {

/// The number of nodes in the tree rooted at `t`: the node itself and all
/// of its descendants.
pub open spec fn node_count<T>(t: NodeModel<T>) -> nat
    decreases t, 0int,
{
    1 + kids_count(t.children, 0)
}

/// The number of nodes in the subtrees rooted at `kids[i..]`.
pub open spec fn kids_count<T>(kids: Seq<NodeModel<T>>, i: int) -> nat
    decreases kids, kids.len() - i,
{
    if 0 <= i < kids.len() {
        node_count(kids[i]) + kids_count(kids, i + 1)
    } else {
        0
    }
}

/// The visits a pre-order traversal of `t` at position `pos` makes, in
/// order: each entry is the position handed to the visitor and the model of
/// the node as the visitor sees it at that moment.
pub open spec fn down_trace<T, V: Visitor<T>>(
    vs: <V as View>::V,
    pos: Option<usize>,
    t: NodeModel<T>,
) -> Seq<(Option<usize>, NodeModel<T>)>
    decreases t, 0int,
{
    seq![(pos, t)] + down_kids_trace::<T, V>(V::next_state(vs, pos, t), t.children, 0)
}

/// The visits pre-order traversals of the subtrees rooted at `kids[i..]`
/// make, in order.
pub open spec fn down_kids_trace<T, V: Visitor<T>>(
    vs: <V as View>::V,
    kids: Seq<NodeModel<T>>,
    i: int,
) -> Seq<(Option<usize>, NodeModel<T>)>
    decreases kids, kids.len() - i,
{
    if 0 <= i < kids.len() {
        down_trace::<T, V>(vs, Some(i as usize), kids[i]) + down_kids_trace::<T, V>(
            spec_bubble_down::<T, V>(vs, Some(i as usize), kids[i]).0,
            kids,
            i + 1,
        )
    } else {
        Seq::empty()
    }
}

/// The visits a post-order traversal of `t` at position `pos` makes, in
/// order: each entry is the position handed to the visitor and the model of
/// the node as the visitor sees it at that moment, children already
/// traversed.
pub open spec fn up_trace<T, V: Visitor<T>>(
    vs: <V as View>::V,
    pos: Option<usize>,
    t: NodeModel<T>,
) -> Seq<(Option<usize>, NodeModel<T>)>
    decreases t, 0int,
{
    up_kids_trace::<T, V>(vs, t.children, 0) + seq![
        (
            pos,
            NodeModel { props: t.props, children: spec_bubble_up_kids::<T, V>(vs, t.children, 0).1 },
        ),
    ]
}

/// The visits post-order traversals of the subtrees rooted at `kids[i..]`
/// make, in order.
pub open spec fn up_kids_trace<T, V: Visitor<T>>(
    vs: <V as View>::V,
    kids: Seq<NodeModel<T>>,
    i: int,
) -> Seq<(Option<usize>, NodeModel<T>)>
    decreases kids, kids.len() - i,
{
    if 0 <= i < kids.len() {
        up_trace::<T, V>(vs, Some(i as usize), kids[i]) + up_kids_trace::<T, V>(
            spec_bubble_up::<T, V>(vs, Some(i as usize), kids[i]).0,
            kids,
            i + 1,
        )
    } else {
        Seq::empty()
    }
}

/// A pre-order traversal visits every node of the tree exactly once — the
/// trace is exactly as long as the tree has nodes — and the first node
/// visited is the traversal root, at the given position (`None` when the
/// traversal starts with `bubble_down`).
pub proof fn lemma_bubble_down_visits_once<T, V: Visitor<T>>(
    vs: <V as View>::V,
    pos: Option<usize>,
    t: NodeModel<T>,
)
    ensures
        down_trace::<T, V>(vs, pos, t).len() == node_count(t),
        down_trace::<T, V>(vs, pos, t)[0] == (pos, t),
    decreases t, 0int,
{
    lemma_down_kids_trace_len::<T, V>(V::next_state(vs, pos, t), t.children, 0);
}

/// The pre-order traces of the subtrees rooted at `kids[i..]` hold one
/// entry per node of those subtrees.
pub proof fn lemma_down_kids_trace_len<T, V: Visitor<T>>(
    vs: <V as View>::V,
    kids: Seq<NodeModel<T>>,
    i: int,
)
    ensures
        down_kids_trace::<T, V>(vs, kids, i).len() == kids_count(kids, i),
    decreases kids, kids.len() - i,
{
    if 0 <= i < kids.len() {
        lemma_bubble_down_visits_once::<T, V>(vs, Some(i as usize), kids[i]);
        lemma_down_kids_trace_len::<T, V>(
            spec_bubble_down::<T, V>(vs, Some(i as usize), kids[i]).0,
            kids,
            i + 1,
        );
    }
}

/// A post-order traversal visits every node of the tree exactly once — the
/// trace is exactly as long as the tree has nodes — and the last node
/// visited is the traversal root, at the given position (`None` when the
/// traversal starts with `bubble_up`), seen with its children already
/// traversed.
pub proof fn lemma_bubble_up_visits_once<T, V: Visitor<T>>(
    vs: <V as View>::V,
    pos: Option<usize>,
    t: NodeModel<T>,
)
    ensures
        up_trace::<T, V>(vs, pos, t).len() == node_count(t),
        up_trace::<T, V>(vs, pos, t).last() == (
            pos,
            NodeModel { props: t.props, children: spec_bubble_up_kids::<T, V>(vs, t.children, 0).1 },
        ),
        up_trace::<T, V>(vs, pos, t).last().0 == pos,
    decreases t, 0int,
{
    lemma_up_kids_trace_len::<T, V>(vs, t.children, 0);
}

/// The post-order traces of the subtrees rooted at `kids[i..]` hold one
/// entry per node of those subtrees.
pub proof fn lemma_up_kids_trace_len<T, V: Visitor<T>>(
    vs: <V as View>::V,
    kids: Seq<NodeModel<T>>,
    i: int,
)
    ensures
        up_kids_trace::<T, V>(vs, kids, i).len() == kids_count(kids, i),
    decreases kids, kids.len() - i,
{
    if 0 <= i < kids.len() {
        lemma_bubble_up_visits_once::<T, V>(vs, Some(i as usize), kids[i]);
        lemma_up_kids_trace_len::<T, V>(
            spec_bubble_up::<T, V>(vs, Some(i as usize), kids[i]).0,
            kids,
            i + 1,
        );
    }
}

/// A childless node produces exactly one visit under either traversal: the
/// node itself, at the given position (`None` when the traversal starts at
/// it).
pub proof fn lemma_leaf_single_visit<T, V: Visitor<T>>(
    vs: <V as View>::V,
    pos: Option<usize>,
    t: NodeModel<T>,
)
    requires
        t.children.len() == 0,
    ensures
        down_trace::<T, V>(vs, pos, t) == seq![(pos, t)],
        up_trace::<T, V>(vs, pos, t) == seq![(pos, t)],
{
    assert(down_trace::<T, V>(vs, pos, t) =~= seq![(pos, t)]);
    assert(spec_bubble_up_kids::<T, V>(vs, t.children, 0).1 =~= t.children);
    assert((NodeModel { props: t.props, children: spec_bubble_up_kids::<T, V>(vs, t.children, 0).1 })
        =~= t);
    assert(up_trace::<T, V>(vs, pos, t) =~= seq![(pos, t)]);
}

/// A pre-order traversal with a visitor that never changes a payload leaves
/// the tree exactly as it was.
pub proof fn lemma_bubble_down_noop_keeps_tree<T, V: Visitor<T>>(
    vs: <V as View>::V,
    pos: Option<usize>,
    t: NodeModel<T>,
)
    requires
        forall|w: <V as View>::V, p: Option<usize>, n: NodeModel<T>|
            #[trigger] V::next_props(w, p, n) == n.props,
    ensures
        spec_bubble_down::<T, V>(vs, pos, t).1 == t,
    decreases t, 0int,
{
    lemma_down_kids_noop::<T, V>(V::next_state(vs, pos, t), t.children, 0);
    assert(t.children.skip(0) =~= t.children);
    assert(spec_bubble_down::<T, V>(vs, pos, t).1 =~= t);
}

/// Pre-order traversals with a visitor that never changes a payload leave
/// the subtrees rooted at `kids[i..]` exactly as they were.
pub proof fn lemma_down_kids_noop<T, V: Visitor<T>>(
    vs: <V as View>::V,
    kids: Seq<NodeModel<T>>,
    i: int,
)
    requires
        0 <= i <= kids.len(),
        forall|w: <V as View>::V, p: Option<usize>, n: NodeModel<T>|
            #[trigger] V::next_props(w, p, n) == n.props,
    ensures
        spec_bubble_down_kids::<T, V>(vs, kids, i).1 == kids.skip(i),
    decreases kids, kids.len() - i,
{
    if i < kids.len() {
        lemma_bubble_down_noop_keeps_tree::<T, V>(vs, Some(i as usize), kids[i]);
        lemma_down_kids_noop::<T, V>(
            spec_bubble_down::<T, V>(vs, Some(i as usize), kids[i]).0,
            kids,
            i + 1,
        );
        assert(spec_bubble_down_kids::<T, V>(vs, kids, i).1 =~= kids.skip(i));
    } else {
        assert(spec_bubble_down_kids::<T, V>(vs, kids, i).1 =~= kids.skip(i));
    }
}

/// A post-order traversal with a visitor that never changes a payload
/// leaves the tree exactly as it was.
pub proof fn lemma_bubble_up_noop_keeps_tree<T, V: Visitor<T>>(
    vs: <V as View>::V,
    pos: Option<usize>,
    t: NodeModel<T>,
)
    requires
        forall|w: <V as View>::V, p: Option<usize>, n: NodeModel<T>|
            #[trigger] V::next_props(w, p, n) == n.props,
    ensures
        spec_bubble_up::<T, V>(vs, pos, t).1 == t,
    decreases t, 0int,
{
    lemma_up_kids_noop::<T, V>(vs, t.children, 0);
    assert(t.children.skip(0) =~= t.children);
    assert(spec_bubble_up::<T, V>(vs, pos, t).1 =~= t);
}

/// Post-order traversals with a visitor that never changes a payload leave
/// the subtrees rooted at `kids[i..]` exactly as they were.
pub proof fn lemma_up_kids_noop<T, V: Visitor<T>>(
    vs: <V as View>::V,
    kids: Seq<NodeModel<T>>,
    i: int,
)
    requires
        0 <= i <= kids.len(),
        forall|w: <V as View>::V, p: Option<usize>, n: NodeModel<T>|
            #[trigger] V::next_props(w, p, n) == n.props,
    ensures
        spec_bubble_up_kids::<T, V>(vs, kids, i).1 == kids.skip(i),
    decreases kids, kids.len() - i,
{
    if i < kids.len() {
        lemma_bubble_up_noop_keeps_tree::<T, V>(vs, Some(i as usize), kids[i]);
        lemma_up_kids_noop::<T, V>(
            spec_bubble_up::<T, V>(vs, Some(i as usize), kids[i]).0,
            kids,
            i + 1,
        );
        assert(spec_bubble_up_kids::<T, V>(vs, kids, i).1 =~= kids.skip(i));
    } else {
        assert(spec_bubble_up_kids::<T, V>(vs, kids, i).1 =~= kids.skip(i));
    }
}

/// The bare structure of a tree: the same nodes in the same arrangement,
/// with every payload stripped.
pub open spec fn tree_shape<T>(t: NodeModel<T>) -> NodeModel<()>
    decreases t,
{
    NodeModel { props: (), children: kids_shape(t.children) }
}

/// The bare structures of the trees in `kids`, in order.
pub open spec fn kids_shape<T>(kids: Seq<NodeModel<T>>) -> Seq<NodeModel<()>>
    decreases kids,
{
    Seq::new(
        kids.len(),
        |i: int|
            if 0 <= i < kids.len() {
                tree_shape(kids[i])
            } else {
                vstd::pervasive::arbitrary()
            },
    )
}

/// A pre-order traversal preserves the structure of the tree, whatever the
/// visitor does to the payloads: the same nodes stand in the same
/// arrangement afterwards. In particular a node with no children still has
/// none.
pub proof fn lemma_bubble_down_keeps_shape<T, V: Visitor<T>>(
    vs: <V as View>::V,
    pos: Option<usize>,
    t: NodeModel<T>,
)
    ensures
        tree_shape(spec_bubble_down::<T, V>(vs, pos, t).1) == tree_shape(t),
    decreases t, 0int,
{
    lemma_down_kids_shape::<T, V>(V::next_state(vs, pos, t), t.children, 0);
    assert(t.children.skip(0) =~= t.children);
    assert(kids_shape(t.children.skip(0)) =~= kids_shape(t.children));
    assert(tree_shape(spec_bubble_down::<T, V>(vs, pos, t).1) =~= tree_shape(t));
}

/// Pre-order traversals preserve the structures of the subtrees rooted at
/// `kids[i..]`.
pub proof fn lemma_down_kids_shape<T, V: Visitor<T>>(
    vs: <V as View>::V,
    kids: Seq<NodeModel<T>>,
    i: int,
)
    requires
        0 <= i <= kids.len(),
    ensures
        kids_shape(spec_bubble_down_kids::<T, V>(vs, kids, i).1) == kids_shape(kids.skip(i)),
    decreases kids, kids.len() - i,
{
    if i < kids.len() {
        let head = spec_bubble_down::<T, V>(vs, Some(i as usize), kids[i]);
        lemma_bubble_down_keeps_shape::<T, V>(vs, Some(i as usize), kids[i]);
        lemma_down_kids_shape::<T, V>(head.0, kids, i + 1);
        let fold1 = spec_bubble_down_kids::<T, V>(vs, kids, i).1;
        let rest1 = spec_bubble_down_kids::<T, V>(head.0, kids, i + 1).1;
        assert(kids_shape(rest1).len() == rest1.len());
        assert(kids_shape(kids.skip(i + 1)).len() == kids.len() - i - 1);
        assert(rest1.len() == kids.len() - i - 1);
        assert forall|j: int| 0 <= j < fold1.len() implies kids_shape(fold1)[j] == kids_shape(
            kids.skip(i),
        )[j] by {
            if j == 0 {
                assert(fold1[0] == head.1);
                assert(kids.skip(i)[0] == kids[i]);
            } else {
                assert(fold1[j] == rest1[j - 1]);
                assert(kids_shape(rest1)[j - 1] == kids_shape(kids.skip(i + 1))[j - 1]);
                assert(kids.skip(i + 1)[j - 1] == kids[i + j]);
                assert(kids.skip(i)[j] == kids[i + j]);
            }
        }
        assert(kids_shape(fold1) =~= kids_shape(kids.skip(i)));
    } else {
        assert(kids_shape(spec_bubble_down_kids::<T, V>(vs, kids, i).1) =~= kids_shape(
            kids.skip(i),
        ));
    }
}

/// A post-order traversal preserves the structure of the tree, whatever the
/// visitor does to the payloads: the same nodes stand in the same
/// arrangement afterwards. In particular a node with no children still has
/// none.
pub proof fn lemma_bubble_up_keeps_shape<T, V: Visitor<T>>(
    vs: <V as View>::V,
    pos: Option<usize>,
    t: NodeModel<T>,
)
    ensures
        tree_shape(spec_bubble_up::<T, V>(vs, pos, t).1) == tree_shape(t),
    decreases t, 0int,
{
    lemma_up_kids_shape::<T, V>(vs, t.children, 0);
    assert(t.children.skip(0) =~= t.children);
    assert(kids_shape(t.children.skip(0)) =~= kids_shape(t.children));
    assert(tree_shape(spec_bubble_up::<T, V>(vs, pos, t).1) =~= tree_shape(t));
}

/// Post-order traversals preserve the structures of the subtrees rooted at
/// `kids[i..]`.
pub proof fn lemma_up_kids_shape<T, V: Visitor<T>>(
    vs: <V as View>::V,
    kids: Seq<NodeModel<T>>,
    i: int,
)
    requires
        0 <= i <= kids.len(),
    ensures
        kids_shape(spec_bubble_up_kids::<T, V>(vs, kids, i).1) == kids_shape(kids.skip(i)),
    decreases kids, kids.len() - i,
{
    if i < kids.len() {
        let head = spec_bubble_up::<T, V>(vs, Some(i as usize), kids[i]);
        lemma_bubble_up_keeps_shape::<T, V>(vs, Some(i as usize), kids[i]);
        lemma_up_kids_shape::<T, V>(head.0, kids, i + 1);
        let fold1 = spec_bubble_up_kids::<T, V>(vs, kids, i).1;
        let rest1 = spec_bubble_up_kids::<T, V>(head.0, kids, i + 1).1;
        assert(kids_shape(rest1).len() == rest1.len());
        assert(kids_shape(kids.skip(i + 1)).len() == kids.len() - i - 1);
        assert(rest1.len() == kids.len() - i - 1);
        assert forall|j: int| 0 <= j < fold1.len() implies kids_shape(fold1)[j] == kids_shape(
            kids.skip(i),
        )[j] by {
            if j == 0 {
                assert(fold1[0] == head.1);
                assert(kids.skip(i)[0] == kids[i]);
            } else {
                assert(fold1[j] == rest1[j - 1]);
                assert(kids_shape(rest1)[j - 1] == kids_shape(kids.skip(i + 1))[j - 1]);
                assert(kids.skip(i + 1)[j - 1] == kids[i + j]);
                assert(kids.skip(i)[j] == kids[i + j]);
            }
        }
        assert(kids_shape(fold1) =~= kids_shape(kids.skip(i)));
    } else {
        assert(kids_shape(spec_bubble_up_kids::<T, V>(vs, kids, i).1) =~= kids_shape(
            kids.skip(i),
        ));
    }
}

/// The visitor view after pre-order traversals of the subtrees rooted at
/// `kids[i0..i]`, starting from `vs`.
pub open spec fn down_state_span<T, V: Visitor<T>>(
    vs: <V as View>::V,
    kids: Seq<NodeModel<T>>,
    i0: int,
    i: int,
) -> <V as View>::V
    decreases i - i0,
{
    if i0 < i {
        down_state_span::<T, V>(
            spec_bubble_down::<T, V>(vs, Some(i0 as usize), kids[i0]).0,
            kids,
            i0 + 1,
            i,
        )
    } else {
        vs
    }
}

/// The visitor view after post-order traversals of the subtrees rooted at
/// `kids[i0..i]`, starting from `vs`.
pub open spec fn up_state_span<T, V: Visitor<T>>(
    vs: <V as View>::V,
    kids: Seq<NodeModel<T>>,
    i0: int,
    i: int,
) -> <V as View>::V
    decreases i - i0,
{
    if i0 < i {
        up_state_span::<T, V>(
            spec_bubble_up::<T, V>(vs, Some(i0 as usize), kids[i0]).0,
            kids,
            i0 + 1,
            i,
        )
    } else {
        vs
    }
}

/// Within the pre-order trace of the subtrees rooted at `kids[i0..]`, the
/// subtree of `kids[i]` occupies one contiguous block: it starts right
/// after the blocks of the children before it and is exactly that child's
/// own pre-order trace.
pub proof fn lemma_down_kids_segment<T, V: Visitor<T>>(
    vs: <V as View>::V,
    kids: Seq<NodeModel<T>>,
    i0: int,
    i: int,
)
    requires
        0 <= i0 <= i < kids.len(),
    ensures
        ({
            let tr = down_kids_trace::<T, V>(vs, kids, i0);
            let start = kids_count(kids, i0) - kids_count(kids, i);
            let span = down_state_span::<T, V>(vs, kids, i0, i);
            &&& 0 <= start
            &&& start + node_count(kids[i]) <= tr.len()
            &&& tr.subrange(start, start + node_count(kids[i])) == down_trace::<T, V>(
                span,
                Some(i as usize),
                kids[i],
            )
        }),
    decreases i - i0,
{
    let first = down_trace::<T, V>(vs, Some(i0 as usize), kids[i0]);
    let head = spec_bubble_down::<T, V>(vs, Some(i0 as usize), kids[i0]);
    let rest = down_kids_trace::<T, V>(head.0, kids, i0 + 1);
    let tr = down_kids_trace::<T, V>(vs, kids, i0);
    lemma_bubble_down_visits_once::<T, V>(vs, Some(i0 as usize), kids[i0]);
    lemma_down_kids_trace_len::<T, V>(vs, kids, i0);
    lemma_down_kids_trace_len::<T, V>(head.0, kids, i0 + 1);
    if i0 == i {
        assert(tr.subrange(0, node_count(kids[i]) as int) =~= first);
    } else {
        lemma_down_kids_segment::<T, V>(head.0, kids, i0 + 1, i);
        let inner = kids_count(kids, i0 + 1) - kids_count(kids, i);
        let start = kids_count(kids, i0) - kids_count(kids, i);
        let c = node_count(kids[i]) as int;
        assert(start == first.len() + inner);
        assert(tr.subrange(start, start + c) =~= rest.subrange(inner, inner + c));
    }
}

/// Within the post-order trace of the subtrees rooted at `kids[i0..]`, the
/// subtree of `kids[i]` occupies one contiguous block: it starts right
/// after the blocks of the children before it and is exactly that child's
/// own post-order trace.
pub proof fn lemma_up_kids_segment<T, V: Visitor<T>>(
    vs: <V as View>::V,
    kids: Seq<NodeModel<T>>,
    i0: int,
    i: int,
)
    requires
        0 <= i0 <= i < kids.len(),
    ensures
        ({
            let tr = up_kids_trace::<T, V>(vs, kids, i0);
            let start = kids_count(kids, i0) - kids_count(kids, i);
            let span = up_state_span::<T, V>(vs, kids, i0, i);
            &&& 0 <= start
            &&& start + node_count(kids[i]) <= tr.len()
            &&& tr.subrange(start, start + node_count(kids[i])) == up_trace::<T, V>(
                span,
                Some(i as usize),
                kids[i],
            )
        }),
    decreases i - i0,
{
    let first = up_trace::<T, V>(vs, Some(i0 as usize), kids[i0]);
    let head = spec_bubble_up::<T, V>(vs, Some(i0 as usize), kids[i0]);
    let rest = up_kids_trace::<T, V>(head.0, kids, i0 + 1);
    let tr = up_kids_trace::<T, V>(vs, kids, i0);
    lemma_bubble_up_visits_once::<T, V>(vs, Some(i0 as usize), kids[i0]);
    lemma_up_kids_trace_len::<T, V>(vs, kids, i0);
    lemma_up_kids_trace_len::<T, V>(head.0, kids, i0 + 1);
    if i0 == i {
        assert(tr.subrange(0, node_count(kids[i]) as int) =~= first);
    } else {
        lemma_up_kids_segment::<T, V>(head.0, kids, i0 + 1, i);
        let inner = kids_count(kids, i0 + 1) - kids_count(kids, i);
        let start = kids_count(kids, i0) - kids_count(kids, i);
        let c = node_count(kids[i]) as int;
        assert(start == first.len() + inner);
        assert(tr.subrange(start, start + c) =~= rest.subrange(inner, inner + c));
    }
}

/// Where each child stands in a pre-order trace: the subtree of child `i`
/// occupies the contiguous block of `node_count` entries that starts right
/// after the root's entry and the blocks of the children before it — so
/// child `i`'s entire subtree is visited before child `i + 1`'s — and the
/// block opens with the child itself, visited at position `Some(i)`, its
/// 0-based index among its parent's children.
pub proof fn lemma_bubble_down_child_order<T, V: Visitor<T>>(
    vs: <V as View>::V,
    pos: Option<usize>,
    t: NodeModel<T>,
    i: int,
)
    requires
        0 <= i < t.children.len(),
    ensures
        ({
            let tr = down_trace::<T, V>(vs, pos, t);
            let start = 1 + kids_count(t.children, 0) - kids_count(t.children, i);
            let span = down_state_span::<T, V>(V::next_state(vs, pos, t), t.children, 0, i);
            &&& 1 <= start
            &&& start + node_count(t.children[i]) <= tr.len()
            &&& tr.subrange(start, start + node_count(t.children[i])) == down_trace::<T, V>(
                span,
                Some(i as usize),
                t.children[i],
            )
            &&& tr[start] == (Some(i as usize), t.children[i])
        }),
{
    let vs1 = V::next_state(vs, pos, t);
    let kt = down_kids_trace::<T, V>(vs1, t.children, 0);
    let tr = down_trace::<T, V>(vs, pos, t);
    let c = node_count(t.children[i]) as int;
    let start = 1 + kids_count(t.children, 0) - kids_count(t.children, i);
    let span = down_state_span::<T, V>(vs1, t.children, 0, i);
    lemma_down_kids_segment::<T, V>(vs1, t.children, 0, i);
    lemma_down_kids_trace_len::<T, V>(vs1, t.children, 0);
    assert(tr.subrange(start, start + c) =~= kt.subrange(start - 1, start - 1 + c));
    lemma_bubble_down_visits_once::<T, V>(span, Some(i as usize), t.children[i]);
    assert(tr[start] == tr.subrange(start, start + c)[0]);
}

/// Where each child stands in a post-order trace: the subtree of child `i`
/// occupies the contiguous block of `node_count` entries that starts right
/// after the blocks of the children before it — so child `i`'s entire
/// subtree is visited before child `i + 1`'s, and every child's subtree
/// before the root's own visit — and the block closes with the child
/// itself, visited at position `Some(i)`, its 0-based index among its
/// parent's children.
pub proof fn lemma_bubble_up_child_order<T, V: Visitor<T>>(
    vs: <V as View>::V,
    pos: Option<usize>,
    t: NodeModel<T>,
    i: int,
)
    requires
        0 <= i < t.children.len(),
    ensures
        ({
            let tr = up_trace::<T, V>(vs, pos, t);
            let start = kids_count(t.children, 0) - kids_count(t.children, i);
            let span = up_state_span::<T, V>(vs, t.children, 0, i);
            &&& 0 <= start
            &&& start + node_count(t.children[i]) < tr.len()
            &&& tr.subrange(start, start + node_count(t.children[i])) == up_trace::<T, V>(
                span,
                Some(i as usize),
                t.children[i],
            )
            &&& tr[start + node_count(t.children[i]) - 1].0 == Some(i as usize)
        }),
{
    let kt = up_kids_trace::<T, V>(vs, t.children, 0);
    let tr = up_trace::<T, V>(vs, pos, t);
    let c = node_count(t.children[i]) as int;
    let start = kids_count(t.children, 0) - kids_count(t.children, i);
    let span = up_state_span::<T, V>(vs, t.children, 0, i);
    lemma_up_kids_segment::<T, V>(vs, t.children, 0, i);
    lemma_up_kids_trace_len::<T, V>(vs, t.children, 0);
    assert(tr.subrange(start, start + c) =~= kt.subrange(start, start + c));
    lemma_bubble_up_visits_once::<T, V>(span, Some(i as usize), t.children[i]);
    assert(tr[start + c - 1] == tr.subrange(start, start + c)[c - 1]);
}

/// The position and payload of each visit in a trace, in order.
pub open spec fn trace_entries<T>(tr: Seq<(Option<usize>, NodeModel<T>)>) -> Seq<
    (Option<usize>, T),
> {
    tr.map_values(|e: (Option<usize>, NodeModel<T>)| (e.0, e.1.props))
}

} // verus!


