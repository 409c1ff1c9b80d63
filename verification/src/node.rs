//! The tree node type, its ghost model, the visitor protocol, and the two
//! traversals: pre-order `bubble_down` and post-order `bubble_up`.

use vstd::prelude::*;

verus! {

/// Ghost model of a tree node: the payload together with the models of the
/// children, in order. Contracts and lemmas in this crate speak of trees
/// through this model.
#[verifier::ext_equal]
pub ghost struct NodeModel<T> {
    pub props: T,
    pub children: Seq<NodeModel<T>>,
}

/// A tree node: a payload of an arbitrary type `T` and an ordered sequence
/// of owned child nodes. Child order is significant and is preserved by
/// every operation of this crate.
#[derive(Debug, PartialEq)]
pub struct RusxNode<T> {
    /// The node's payload.
    pub props: T,
    /// The node's children, owned by this node. Can be empty.
    pub children: Vec<RusxNode<T>>,
}

/// The models of a sequence of nodes, element by element and in order.
pub open spec fn kids_model<T>(kids: Seq<RusxNode<T>>) -> Seq<NodeModel<T>>
    decreases kids,
{
    Seq::new(
        kids.len(),
        |i: int|
            if 0 <= i < kids.len() {
                kids[i].model()
            } else {
                vstd::pervasive::arbitrary()
            },
    )
}

impl<T> RusxNode<T> {
    /// The ghost model of this node: its payload and, recursively, the
    /// models of its children, in order.
    pub open spec fn model(self) -> NodeModel<T>
        decreases self,
    {
        NodeModel { props: self.props, children: kids_model(self.children@) }
    }
}

impl<T> View for RusxNode<T> {
    type V = NodeModel<T>;

    open spec fn view(&self) -> NodeModel<T> {
        self.model()
    }
}

/// What a visitor invocation sees: the payload handed to it mutably and the
/// models of the child nodes handed to it read-only.
pub open spec fn seen_model<T>(props: T, children: Seq<RusxNode<T>>) -> NodeModel<T> {
    NodeModel { props, children: kids_model(children) }
}

/// A traversal callback. One visitor value is handed every node of a
/// traversal in turn, so state it carries accumulates across visits.
///
/// A visitor receives the visited node's 0-based position among its
/// parent's children (`None` for the root of the traversal), mutable
/// access to the node's payload, and read access to the node's children.
/// It can therefore mutate the payload of the node it stands on, but not
/// the structure of the tree.
///
/// At the level of views its behaviour is a function: `next_state` gives
/// the visitor's view after a visit and `next_props` the payload the node
/// holds after it, both determined by the visitor's view before the visit,
/// the position, and the model of the node as the visitor sees it.
pub trait Visitor<T>: View + Sized {
    /// The visitor's view after one visit at position `pos` of a node whose
    /// model at visit time is `node`, starting from the view `pre`.
    spec fn next_state(pre: <Self as View>::V, pos: Option<usize>, node: NodeModel<T>) -> <Self as View>::V;

    /// The payload the visited node holds once the visit returns.
    spec fn next_props(pre: <Self as View>::V, pos: Option<usize>, node: NodeModel<T>) -> T;

    /// Visit one node: `pos` is the node's position among its parent's
    /// children (`None` for the traversal root), `props` its payload, and
    /// `children` its children.
    fn visit(&mut self, pos: Option<usize>, props: &mut T, children: &Vec<RusxNode<T>>)
        ensures
            final(self)@ == Self::next_state(old(self)@, pos, seen_model(*old(props), children@)),
            *final(props) == Self::next_props(old(self)@, pos, seen_model(*old(props), children@)),
    ;
}

/// The visitor view and tree model produced by a pre-order (top-down)
/// traversal of `t` visited at position `pos`, starting from visitor view
/// `vs`: the node itself is visited first, then each child's subtree in
/// order.
pub open spec fn spec_bubble_down<T, V: Visitor<T>>(
    vs: <V as View>::V,
    pos: Option<usize>,
    t: NodeModel<T>,
) -> (<V as View>::V, NodeModel<T>)
    decreases t, 0int,
{
    let down = spec_bubble_down_kids::<T, V>(V::next_state(vs, pos, t), t.children, 0);
    (down.0, NodeModel { props: V::next_props(vs, pos, t), children: down.1 })
}

/// The visitor view and child models produced by pre-order traversals of
/// the subtrees rooted at `kids[i..]`, each child visited at its own index.
pub open spec fn spec_bubble_down_kids<T, V: Visitor<T>>(
    vs: <V as View>::V,
    kids: Seq<NodeModel<T>>,
    i: int,
) -> (<V as View>::V, Seq<NodeModel<T>>)
    decreases kids, kids.len() - i,
{
    if 0 <= i < kids.len() {
        let head = spec_bubble_down::<T, V>(vs, Some(i as usize), kids[i]);
        let rest = spec_bubble_down_kids::<T, V>(head.0, kids, i + 1);
        (rest.0, seq![head.1] + rest.1)
    } else {
        (vs, Seq::empty())
    }
}

/// The visitor view and tree model produced by a post-order (bottom-up)
/// traversal of `t` visited at position `pos`, starting from visitor view
/// `vs`: each child's subtree is traversed first, in order, and the node
/// itself is visited last, seeing its already-traversed children.
pub open spec fn spec_bubble_up<T, V: Visitor<T>>(
    vs: <V as View>::V,
    pos: Option<usize>,
    t: NodeModel<T>,
) -> (<V as View>::V, NodeModel<T>)
    decreases t, 0int,
{
    let up = spec_bubble_up_kids::<T, V>(vs, t.children, 0);
    let seen = NodeModel { props: t.props, children: up.1 };
    (
        V::next_state(up.0, pos, seen),
        NodeModel { props: V::next_props(up.0, pos, seen), children: up.1 },
    )
}

/// The visitor view and child models produced by post-order traversals of
/// the subtrees rooted at `kids[i..]`, each child visited at its own index.
pub open spec fn spec_bubble_up_kids<T, V: Visitor<T>>(
    vs: <V as View>::V,
    kids: Seq<NodeModel<T>>,
    i: int,
) -> (<V as View>::V, Seq<NodeModel<T>>)
    decreases kids, kids.len() - i,
{
    if 0 <= i < kids.len() {
        let head = spec_bubble_up::<T, V>(vs, Some(i as usize), kids[i]);
        let rest = spec_bubble_up_kids::<T, V>(head.0, kids, i + 1);
        (rest.0, seq![head.1] + rest.1)
    } else {
        (vs, Seq::empty())
    }
}

impl<T> RusxNode<T> {
    /// Returns a node with the given payload and no children.
    pub fn new(props: T) -> (n: Self)
        ensures
            n@ == (NodeModel { props, children: Seq::<NodeModel<T>>::empty() }),
    {
        let n = Self { props, children: Vec::new() };
        proof {
            assert(n@.children =~= Seq::<NodeModel<T>>::empty());
        }
        n
    }

    /// Appends `child` at the end of this node's child sequence.
    pub fn push_child(&mut self, child: Self)
        ensures
            final(self)@ == (NodeModel {
                props: old(self).props,
                children: old(self)@.children.push(child@),
            }),
    {
        self.children.push(child);
        proof {
            assert(self@.children =~= old(self)@.children.push(child@));
        }
    }

    /// Runs the visitor on this node, then on every descendant: a pre-order,
    /// top-down walk. The root is visited first, with position `None`, and
    /// each child is visited at its 0-based index among its parent's
    /// children, before its own children. Every node is visited exactly
    /// once, and a payload mutation made at a node is in place before the
    /// traversal descends into that node's children.
    pub fn bubble_down<V: Visitor<T>>(&mut self, visitor: &mut V)
        ensures
            final(visitor)@ == spec_bubble_down::<T, V>(old(visitor)@, None::<usize>, old(self)@).0,
            final(self)@ == spec_bubble_down::<T, V>(old(visitor)@, None::<usize>, old(self)@).1,
    {
        self.walk_down(None, visitor);
    }

    /// Runs the visitor on every descendant, then on this node: a
    /// post-order, bottom-up walk. Each child's subtree is fully visited,
    /// in child order, before the next sibling's, and the root is visited
    /// last of all, with position `None`, seeing the payloads its
    /// descendants hold after their own visits. Every node is visited
    /// exactly once.
    pub fn bubble_up<V: Visitor<T>>(&mut self, visitor: &mut V)
        ensures
            final(visitor)@ == spec_bubble_up::<T, V>(old(visitor)@, None::<usize>, old(self)@).0,
            final(self)@ == spec_bubble_up::<T, V>(old(visitor)@, None::<usize>, old(self)@).1,
    {
        self.walk_up(None, visitor);
    }

    /// Pre-order walk of the subtree rooted at this node, visited at
    /// position `pos`.
    fn walk_down<V: Visitor<T>>(&mut self, pos: Option<usize>, visitor: &mut V)
        ensures
            final(visitor)@ == spec_bubble_down::<T, V>(old(visitor)@, pos, old(self)@).0,
            final(self)@ == spec_bubble_down::<T, V>(old(visitor)@, pos, old(self)@).1,
        decreases old(self)@,
    {
        let ghost t0 = self@;
        let ghost vs0 = visitor@;
        let ghost kids0 = self.children@;
        visitor.visit(pos, &mut self.props, &self.children);
        let ghost vs1 = V::next_state(vs0, pos, t0);
        proof {
            assert(seen_model(t0.props, kids0) =~= t0);
        }
        let n = self.children.len();
        let mut j: usize = 0;
        while j < n
            invariant
                n == self.children.len(),
                t0 == old(self)@,
                t0.children == kids_model(kids0),
                t0.children.len() == n,
                kids0.len() == n,
                j <= n,
                self.props == V::next_props(vs0, pos, t0),
                forall|k: int| j <= k < n ==> self.children@[k] == kids0[k],
                spec_bubble_down_kids::<T, V>(vs1, t0.children, 0).0 == spec_bubble_down_kids::<
                    T,
                    V,
                >(visitor@, t0.children, j as int).0,
                spec_bubble_down_kids::<T, V>(vs1, t0.children, 0).1 =~= kids_model(
                    self.children@,
                ).take(j as int) + spec_bubble_down_kids::<T, V>(visitor@, t0.children, j as int).1,
            decreases n - j,
        {
            let ghost pre_kids = self.children@;
            let ghost vs_j = visitor@;
            proof {
                assert(kids_model(kids0)[j as int] == kids0[j as int].model());
                assert(decreases_to!(t0 => t0.children));
                assert(decreases_to!(t0.children => t0.children[j as int]));
                assert(decreases_to!(old(self)@ => kids0[j as int].model()));
            }
            self.children[j].walk_down(Some(j), visitor);
            proof {
                let ghost head = spec_bubble_down::<T, V>(vs_j, Some(j), t0.children[j as int]);
                assert(self.children@[j as int]@ == head.1);
                assert(kids_model(self.children@).take(j as int + 1) =~= kids_model(
                    pre_kids,
                ).take(j as int).push(head.1));
            }
            j += 1;
        }
        proof {
            assert(kids_model(self.children@).take(n as int) =~= kids_model(self.children@));
            assert(final(self)@ =~= spec_bubble_down::<T, V>(vs0, pos, t0).1);
        }
    }

    /// Post-order walk of the subtree rooted at this node, visited at
    /// position `pos`.
    fn walk_up<V: Visitor<T>>(&mut self, pos: Option<usize>, visitor: &mut V)
        ensures
            final(visitor)@ == spec_bubble_up::<T, V>(old(visitor)@, pos, old(self)@).0,
            final(self)@ == spec_bubble_up::<T, V>(old(visitor)@, pos, old(self)@).1,
        decreases old(self)@,
    {
        let ghost t0 = self@;
        let ghost vs0 = visitor@;
        let ghost kids0 = self.children@;
        let ghost props0 = self.props;
        let n = self.children.len();
        let mut j: usize = 0;
        while j < n
            invariant
                n == self.children.len(),
                t0 == old(self)@,
                t0.children == kids_model(kids0),
                t0.children.len() == n,
                kids0.len() == n,
                j <= n,
                self.props == props0,
                forall|k: int| j <= k < n ==> self.children@[k] == kids0[k],
                spec_bubble_up_kids::<T, V>(vs0, t0.children, 0).0 == spec_bubble_up_kids::<T, V>(
                    visitor@,
                    t0.children,
                    j as int,
                ).0,
                spec_bubble_up_kids::<T, V>(vs0, t0.children, 0).1 =~= kids_model(
                    self.children@,
                ).take(j as int) + spec_bubble_up_kids::<T, V>(visitor@, t0.children, j as int).1,
            decreases n - j,
        {
            let ghost pre_kids = self.children@;
            let ghost vs_j = visitor@;
            proof {
                assert(kids_model(kids0)[j as int] == kids0[j as int].model());
                assert(decreases_to!(t0 => t0.children));
                assert(decreases_to!(t0.children => t0.children[j as int]));
                assert(decreases_to!(old(self)@ => kids0[j as int].model()));
            }
            self.children[j].walk_up(Some(j), visitor);
            proof {
                let ghost head = spec_bubble_up::<T, V>(vs_j, Some(j), t0.children[j as int]);
                assert(self.children@[j as int]@ == head.1);
                assert(kids_model(self.children@).take(j as int + 1) =~= kids_model(
                    pre_kids,
                ).take(j as int).push(head.1));
            }
            j += 1;
        }
        proof {
            assert(kids_model(self.children@).take(n as int) =~= kids_model(self.children@));
            assert(seen_model(props0, self.children@) =~= (NodeModel {
                props: t0.props,
                children: spec_bubble_up_kids::<T, V>(vs0, t0.children, 0).1,
            }));
        }
        visitor.visit(pos, &mut self.props, &self.children);
        proof {
            assert(final(self)@ =~= spec_bubble_up::<T, V>(vs0, pos, t0).1);
        }
    }
}

} // verus!
