//! Leaf behavior: a childless node produces exactly one visitor invocation,
//! with position `None`, under either traversal.

use rusx::NodeModel;
use rusx::RecordVisitor;
use rusx::RusxNode;
use rusx::Visitor;
use vstd::view::View;

// The ghost items of the visitor contract (`view`, `next_state`,
// `next_props`) are erased before compilation; the bodies below are never
// run.
struct CountVisitor {
    count: u64,
}

impl View for CountVisitor {
    type V = ();

    fn view(&self) -> () {
        ()
    }
}

impl Visitor<u32> for CountVisitor {
    fn next_state(_: (), _: Option<usize>, _: NodeModel<u32>) -> () {
        ()
    }

    fn next_props(_: (), _: Option<usize>, _: NodeModel<u32>) -> u32 {
        0
    }

    fn visit(&mut self, _pos: Option<usize>, _props: &mut u32, _children: &Vec<RusxNode<u32>>) {
        self.count += 1;
    }
}

#[test]
fn leaf_bubble_down_one_invocation() {
    let mut t = RusxNode::new(5u32);
    let mut v = CountVisitor { count: 0 };
    t.bubble_down(&mut v);
    assert_eq!(v.count, 1);
    assert_eq!(t.props, 5);
    assert!(t.children.is_empty());
}

#[test]
fn leaf_bubble_up_one_invocation_position_none() {
    let mut t = RusxNode::new(7u64);
    let mut v = RecordVisitor::new();
    t.bubble_up(&mut v);
    assert_eq!(v.log, vec![(None, 7u64)]);
    assert!(t.children.is_empty());
}

#[test]
fn leaf_bubble_down_position_none() {
    let mut t = RusxNode::new(7u64);
    let mut v = RecordVisitor::new();
    t.bubble_down(&mut v);
    assert_eq!(v.log, vec![(None, 7u64)]);
}
