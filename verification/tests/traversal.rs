use rusx::AddOneVisitor;
use rusx::RusxNode;

#[test]
fn add_one_preorder_order() {
    let mut root = RusxNode::new(10u64);
    root.push_child(RusxNode::new(20));
    root.push_child(RusxNode::new(30));
    let mut v = AddOneVisitor::new();
    root.bubble_down(&mut v);
    assert_eq!(v.log, vec![(None, 11), (Some(0), 21), (Some(1), 31)]);
    assert_eq!(root.props, 11);
    assert_eq!(root.children[0].props, 21);
    assert_eq!(root.children[1].props, 31);
}
