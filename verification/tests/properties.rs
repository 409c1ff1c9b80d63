//! Behavioral properties of the two traversals on concrete trees: visit
//! order and positions, exactly-once visitation, idempotence under a no-op
//! visitor, bottom-up mutation visibility, and preservation of empty child
//! sequences.

use rusx::AddOneVisitor;
use rusx::NoOpVisitor;
use rusx::RecordVisitor;
use rusx::RusxNode;
use rusx::SumChildrenVisitor;

/// `root { a { c, d }, b }` with the given payloads.
fn nested(root: u64, a: u64, b: u64, c: u64, d: u64) -> RusxNode<u64> {
    let mut ta = RusxNode::new(a);
    ta.push_child(RusxNode::new(c));
    ta.push_child(RusxNode::new(d));
    let mut t = RusxNode::new(root);
    t.push_child(ta);
    t.push_child(RusxNode::new(b));
    t
}

#[test]
fn add_one_postorder_order() {
    let mut root = RusxNode::new(10u64);
    root.push_child(RusxNode::new(20));
    root.push_child(RusxNode::new(30));
    let mut v = AddOneVisitor::new();
    root.bubble_up(&mut v);
    assert_eq!(v.log, vec![(Some(0), 21), (Some(1), 31), (None, 11)]);
    assert_eq!(root.props, 11);
    assert_eq!(root.children[0].props, 21);
    assert_eq!(root.children[1].props, 31);
}

#[test]
fn preorder_visits_each_node_once_in_order() {
    let mut t = nested(1, 2, 3, 4, 5);
    let mut v = RecordVisitor::new();
    t.bubble_down(&mut v);
    assert_eq!(
        v.log,
        vec![(None, 1), (Some(0), 2), (Some(0), 4), (Some(1), 5), (Some(1), 3)]
    );
}

#[test]
fn postorder_visits_each_node_once_in_order() {
    let mut t = nested(1, 2, 3, 4, 5);
    let mut v = RecordVisitor::new();
    t.bubble_up(&mut v);
    assert_eq!(
        v.log,
        vec![(Some(0), 4), (Some(1), 5), (Some(0), 2), (Some(1), 3), (None, 1)]
    );
}

#[test]
fn noop_traversals_leave_tree_unchanged() {
    let mut t = nested(1, 2, 3, 4, 5);
    t.bubble_down(&mut NoOpVisitor);
    assert_eq!(t, nested(1, 2, 3, 4, 5));
    t.bubble_up(&mut NoOpVisitor);
    assert_eq!(t, nested(1, 2, 3, 4, 5));
}

#[test]
fn bubble_up_sums_zeroes() {
    let mut t = RusxNode::new(0u64);
    t.push_child(RusxNode::new(0));
    t.push_child(RusxNode::new(0));
    t.bubble_up(&mut SumChildrenVisitor);
    assert_eq!(t.props, 0);
    assert_eq!(t.children[0].props, 0);
    assert_eq!(t.children[1].props, 0);
}

#[test]
fn bubble_up_sums_children_into_parent() {
    let mut t = RusxNode::new(0u64);
    t.push_child(RusxNode::new(1));
    t.push_child(RusxNode::new(2));
    t.bubble_up(&mut SumChildrenVisitor);
    assert_eq!(t.children[0].props, 1);
    assert_eq!(t.children[1].props, 2);
    assert_eq!(t.props, 3);
}

#[test]
fn bubble_up_rolls_values_up_two_levels() {
    let mut t = nested(1, 2, 3, 4, 5);
    t.bubble_up(&mut SumChildrenVisitor);
    assert_eq!(t.children[0].children[0].props, 4);
    assert_eq!(t.children[0].children[1].props, 5);
    assert_eq!(t.children[0].props, 11);
    assert_eq!(t.children[1].props, 3);
    assert_eq!(t.props, 15);
}

#[test]
fn empty_children_preserved() {
    let t = RusxNode::new(9u32);
    assert!(t.children.is_empty());

    let mut t = RusxNode::new(9u64);
    t.push_child(RusxNode::new(8));
    t.bubble_down(&mut AddOneVisitor::new());
    t.bubble_up(&mut NoOpVisitor);
    assert_eq!(t.children.len(), 1);
    assert!(t.children[0].children.is_empty());
}

#[test]
fn add_one_wraps_at_max() {
    let mut t = RusxNode::new(u64::MAX);
    let mut v = AddOneVisitor::new();
    t.bubble_down(&mut v);
    assert_eq!(t.props, 0);
    assert_eq!(v.log, vec![(None, 0)]);
}

#[test]
fn sum_wraps_at_max() {
    let mut t = RusxNode::new(u64::MAX);
    t.push_child(RusxNode::new(3));
    t.bubble_up(&mut SumChildrenVisitor);
    assert_eq!(t.props, 2);
    assert_eq!(t.children[0].props, 3);
}

#[test]
fn bubble_down_sums_before_descending() {
    // Pre-order: the root sums its children before they are visited, so it
    // sees the un-summed child value; the child then sums its own subtree.
    let mut t = RusxNode::new(1u64);
    let mut a = RusxNode::new(2);
    a.push_child(RusxNode::new(4));
    t.push_child(a);
    t.bubble_down(&mut SumChildrenVisitor);
    assert_eq!(t.props, 3);
    assert_eq!(t.children[0].props, 6);
    assert_eq!(t.children[0].children[0].props, 4);
}

#[test]
fn bubble_up_sums_after_descending() {
    // Post-order on the same tree: the child has already rolled its subtree
    // up when the root is visited, so the root sees the summed child.
    let mut t = RusxNode::new(1u64);
    let mut a = RusxNode::new(2);
    a.push_child(RusxNode::new(4));
    t.push_child(a);
    t.bubble_up(&mut SumChildrenVisitor);
    assert_eq!(t.children[0].children[0].props, 4);
    assert_eq!(t.children[0].props, 6);
    assert_eq!(t.props, 7);
}
