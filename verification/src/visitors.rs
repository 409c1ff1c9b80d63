//! Ready-made visitors: a no-op visitor, a visitor that records the visit
//! order, and two payload-mutating visitors for `u64` payloads.

use vstd::prelude::*;

use crate::laws::down_kids_trace;
use crate::laws::down_trace;
use crate::laws::lemma_bubble_down_noop_keeps_tree;
use crate::laws::lemma_bubble_up_noop_keeps_tree;
use crate::laws::trace_entries;
use crate::laws::up_kids_trace;
use crate::laws::up_trace;
use crate::node::spec_bubble_down;
use crate::node::spec_bubble_down_kids;
use crate::node::spec_bubble_up;
use crate::node::spec_bubble_up_kids;
use crate::node::NodeModel;
use crate::node::RusxNode;
use crate::node::Visitor;

verus! {

/// A visitor that changes nothing and carries no state: traversing a tree
/// with it leaves every payload as it was.
pub struct NoOpVisitor;

impl View for NoOpVisitor {
    type V = ();

    open spec fn view(&self) -> () {
        ()
    }
}

impl<T> Visitor<T> for NoOpVisitor {
    open spec fn next_state(pre: (), pos: Option<usize>, node: NodeModel<T>) -> () {
        ()
    }

    open spec fn next_props(pre: (), pos: Option<usize>, node: NodeModel<T>) -> T {
        node.props
    }

    fn visit(&mut self, pos: Option<usize>, props: &mut T, children: &Vec<RusxNode<T>>) {
    }
}

/// Traversing a tree with [`NoOpVisitor`] leaves the tree's model exactly
/// as it was, in either direction.
pub proof fn lemma_noop_visitor_keeps_tree<T>(pos: Option<usize>, t: NodeModel<T>)
    ensures
        spec_bubble_down::<T, NoOpVisitor>((), pos, t).1 == t,
        spec_bubble_up::<T, NoOpVisitor>((), pos, t).1 == t,
{
    lemma_bubble_down_noop_keeps_tree::<T, NoOpVisitor>((), pos, t);
    lemma_bubble_up_noop_keeps_tree::<T, NoOpVisitor>((), pos, t);
}

/// A visitor that leaves every payload unchanged and records, in visit
/// order, each position it was handed together with the payload it saw
/// there.
pub struct RecordVisitor<T> {
    /// The visits seen so far, oldest first.
    pub log: Vec<(Option<usize>, T)>,
}

impl<T> RecordVisitor<T> {
    /// Returns a visitor with an empty log.
    pub fn new() -> (v: Self)
        ensures
            v@ == Seq::<(Option<usize>, T)>::empty(),
    {
        RecordVisitor { log: Vec::new() }
    }
}

impl<T> View for RecordVisitor<T> {
    type V = Seq<(Option<usize>, T)>;

    open spec fn view(&self) -> Seq<(Option<usize>, T)> {
        self.log@
    }
}

impl<T: Copy> Visitor<T> for RecordVisitor<T> {
    open spec fn next_state(
        pre: Seq<(Option<usize>, T)>,
        pos: Option<usize>,
        node: NodeModel<T>,
    ) -> Seq<(Option<usize>, T)> {
        pre.push((pos, node.props))
    }

    open spec fn next_props(
        pre: Seq<(Option<usize>, T)>,
        pos: Option<usize>,
        node: NodeModel<T>,
    ) -> T {
        node.props
    }

    fn visit(&mut self, pos: Option<usize>, props: &mut T, children: &Vec<RusxNode<T>>) {
        self.log.push((pos, *props));
    }
}

/// A visitor for `u64` payloads that adds one to each visited payload
/// (wrapping on overflow) and records, in visit order, each position it was
/// handed together with the payload as it stands after the increment.
pub struct AddOneVisitor {
    /// The visits seen so far, oldest first, each with the incremented
    /// payload.
    pub log: Vec<(Option<usize>, u64)>,
}

impl AddOneVisitor {
    /// Returns a visitor with an empty log.
    pub fn new() -> (v: Self)
        ensures
            v@ == Seq::<(Option<usize>, u64)>::empty(),
    {
        AddOneVisitor { log: Vec::new() }
    }
}

impl View for AddOneVisitor {
    type V = Seq<(Option<usize>, u64)>;

    open spec fn view(&self) -> Seq<(Option<usize>, u64)> {
        self.log@
    }
}

impl Visitor<u64> for AddOneVisitor {
    open spec fn next_state(
        pre: Seq<(Option<usize>, u64)>,
        pos: Option<usize>,
        node: NodeModel<u64>,
    ) -> Seq<(Option<usize>, u64)> {
        pre.push((pos, vstd::wrapping::u64_specs::wrapping_add(node.props, 1)))
    }

    open spec fn next_props(
        pre: Seq<(Option<usize>, u64)>,
        pos: Option<usize>,
        node: NodeModel<u64>,
    ) -> u64 {
        vstd::wrapping::u64_specs::wrapping_add(node.props, 1)
    }

    fn visit(&mut self, pos: Option<usize>, props: &mut u64, children: &Vec<RusxNode<u64>>) {
        *props = props.wrapping_add(1);
        self.log.push((pos, *props));
    }
}

/// The wrapping sum of `acc` and the payloads of `kids[i..]`, folded from
/// the left.
pub open spec fn props_plus_kids(acc: u64, kids: Seq<NodeModel<u64>>, i: int) -> u64
    decreases kids.len() - i,
{
    if 0 <= i < kids.len() {
        props_plus_kids(
            vstd::wrapping::u64_specs::wrapping_add(acc, kids[i].props),
            kids,
            i + 1,
        )
    } else {
        acc
    }
}

/// A stateless visitor for `u64` payloads that replaces each visited
/// payload with the wrapping sum of the payload itself and the payloads of
/// the node's immediate children, as they stand at visit time. Under
/// `bubble_up` this rolls values from the leaves towards the root, since
/// each child's payload has already been summed when its parent is visited.
pub struct SumChildrenVisitor;

impl View for SumChildrenVisitor {
    type V = ();

    open spec fn view(&self) -> () {
        ()
    }
}

impl Visitor<u64> for SumChildrenVisitor {
    open spec fn next_state(pre: (), pos: Option<usize>, node: NodeModel<u64>) -> () {
        ()
    }

    open spec fn next_props(pre: (), pos: Option<usize>, node: NodeModel<u64>) -> u64 {
        props_plus_kids(node.props, node.children, 0)
    }

    fn visit(&mut self, pos: Option<usize>, props: &mut u64, children: &Vec<RusxNode<u64>>) {
        let ghost seen_kids = crate::node::kids_model(children@);
        let n = children.len();
        let mut acc: u64 = *props;
        let mut j: usize = 0;
        while j < n
            invariant
                n == children.len(),
                seen_kids == crate::node::kids_model(children@),
                seen_kids.len() == n,
                j <= n,
                props_plus_kids(*old(props), seen_kids, 0) == props_plus_kids(
                    acc,
                    seen_kids,
                    j as int,
                ),
            decreases n - j,
        {
            proof {
                assert(seen_kids[j as int] == children@[j as int].model());
            }
            acc = acc.wrapping_add(children[j].props);
            j += 1;
        }
        *props = acc;
    }
}

/// What a `RecordVisitor` holds after a pre-order traversal is its earlier
/// log followed by exactly the traversal's trace: the position and payload
/// of every visit, in visit order.
pub proof fn lemma_record_logs_down_trace<T: Copy>(
    log: Seq<(Option<usize>, T)>,
    pos: Option<usize>,
    t: NodeModel<T>,
)
    ensures
        spec_bubble_down::<T, RecordVisitor<T>>(log, pos, t).0 == log + trace_entries(
            down_trace::<T, RecordVisitor<T>>(log, pos, t),
        ),
    decreases t, 0int,
{
    let vs1 = log.push((pos, t.props));
    lemma_record_logs_down_kids::<T>(vs1, t.children, 0);
    let kt = down_kids_trace::<T, RecordVisitor<T>>(vs1, t.children, 0);
    assert(spec_bubble_down::<T, RecordVisitor<T>>(log, pos, t).0 =~= log + trace_entries(
        seq![(pos, t)] + kt,
    ));
}

/// What a `RecordVisitor` holds after pre-order traversals of the subtrees
/// rooted at `kids[i..]` is its earlier log followed by exactly those
/// traversals' trace.
pub proof fn lemma_record_logs_down_kids<T: Copy>(
    log: Seq<(Option<usize>, T)>,
    kids: Seq<NodeModel<T>>,
    i: int,
)
    ensures
        spec_bubble_down_kids::<T, RecordVisitor<T>>(log, kids, i).0 == log + trace_entries(
            down_kids_trace::<T, RecordVisitor<T>>(log, kids, i),
        ),
    decreases kids, kids.len() - i,
{
    if 0 <= i < kids.len() {
        lemma_record_logs_down_trace::<T>(log, Some(i as usize), kids[i]);
        let head = spec_bubble_down::<T, RecordVisitor<T>>(log, Some(i as usize), kids[i]).0;
        lemma_record_logs_down_kids::<T>(head, kids, i + 1);
        assert(spec_bubble_down_kids::<T, RecordVisitor<T>>(log, kids, i).0 =~= log
            + trace_entries(down_kids_trace::<T, RecordVisitor<T>>(log, kids, i)));
    } else {
        assert(spec_bubble_down_kids::<T, RecordVisitor<T>>(log, kids, i).0 =~= log
            + trace_entries(down_kids_trace::<T, RecordVisitor<T>>(log, kids, i)));
    }
}

/// What a `RecordVisitor` holds after a post-order traversal is its earlier
/// log followed by exactly the traversal's trace: the position and payload
/// of every visit, in visit order.
pub proof fn lemma_record_logs_up_trace<T: Copy>(
    log: Seq<(Option<usize>, T)>,
    pos: Option<usize>,
    t: NodeModel<T>,
)
    ensures
        spec_bubble_up::<T, RecordVisitor<T>>(log, pos, t).0 == log + trace_entries(
            up_trace::<T, RecordVisitor<T>>(log, pos, t),
        ),
    decreases t, 0int,
{
    lemma_record_logs_up_kids::<T>(log, t.children, 0);
    assert(spec_bubble_up::<T, RecordVisitor<T>>(log, pos, t).0 =~= log + trace_entries(
        up_trace::<T, RecordVisitor<T>>(log, pos, t),
    ));
}

/// What a `RecordVisitor` holds after post-order traversals of the subtrees
/// rooted at `kids[i..]` is its earlier log followed by exactly those
/// traversals' trace.
pub proof fn lemma_record_logs_up_kids<T: Copy>(
    log: Seq<(Option<usize>, T)>,
    kids: Seq<NodeModel<T>>,
    i: int,
)
    ensures
        spec_bubble_up_kids::<T, RecordVisitor<T>>(log, kids, i).0 == log + trace_entries(
            up_kids_trace::<T, RecordVisitor<T>>(log, kids, i),
        ),
    decreases kids, kids.len() - i,
{
    if 0 <= i < kids.len() {
        lemma_record_logs_up_trace::<T>(log, Some(i as usize), kids[i]);
        let head = spec_bubble_up::<T, RecordVisitor<T>>(log, Some(i as usize), kids[i]).0;
        lemma_record_logs_up_kids::<T>(head, kids, i + 1);
        assert(spec_bubble_up_kids::<T, RecordVisitor<T>>(log, kids, i).0 =~= log + trace_entries(
            up_kids_trace::<T, RecordVisitor<T>>(log, kids, i),
        ));
    } else {
        assert(spec_bubble_up_kids::<T, RecordVisitor<T>>(log, kids, i).0 =~= log + trace_entries(
            up_kids_trace::<T, RecordVisitor<T>>(log, kids, i),
        ));
    }
}

} // verus!

