use rusx::NodeModel;
use rusx::RusxNode;
use rusx::Visitor;
use vstd::view::View;

#[derive(Default, Debug)]
struct TestProps<T> {
    foo: T,
    bar: T,
}

struct PrintFoo;

impl View for PrintFoo {
    type V = ();

    fn view(&self) -> () {
        ()
    }
}

impl Visitor<TestProps<u8>> for PrintFoo {
    fn next_state(_: (), _: Option<usize>, _: NodeModel<TestProps<u8>>) -> () {
        ()
    }

    fn next_props(_: (), _: Option<usize>, _: NodeModel<TestProps<u8>>) -> TestProps<u8> {
        TestProps::default()
    }

    fn visit(
        &mut self,
        pos: Option<usize>,
        props: &mut TestProps<u8>,
        _children: &Vec<RusxNode<TestProps<u8>>>,
    ) {
        println!("{:?} - foo is {}", pos, props.foo);
    }
}

struct BumpFoo;

impl View for BumpFoo {
    type V = ();

    fn view(&self) -> () {
        ()
    }
}

impl Visitor<TestProps<u8>> for BumpFoo {
    fn next_state(_: (), _: Option<usize>, _: NodeModel<TestProps<u8>>) -> () {
        ()
    }

    fn next_props(_: (), _: Option<usize>, _: NodeModel<TestProps<u8>>) -> TestProps<u8> {
        TestProps::default()
    }

    fn visit(
        &mut self,
        pos: Option<usize>,
        props: &mut TestProps<u8>,
        _children: &Vec<RusxNode<TestProps<u8>>>,
    ) {
        props.foo += 1;
        println!("{:?} - foo is {}", pos, props.foo);
    }
}

fn leaf<T: Default>(props: TestProps<T>) -> RusxNode<TestProps<T>> {
    RusxNode { props, children: vec![] }
}

#[test]
fn macro_test() {
    RusxNode {
        props: TestProps { foo: 10, bar: 20 },
        children: vec![
            leaf(TestProps { foo: 1, ..Default::default() }),
            leaf(TestProps { foo: 100, ..Default::default() }),
        ],
    };

    let n: RusxNode<TestProps<_>> = RusxNode {
        props: TestProps::default(),
        children: vec![
            RusxNode {
                props: TestProps { foo: 1, ..Default::default() },
                children: vec![RusxNode {
                    props: TestProps { bar: 20, ..Default::default() },
                    children: vec![
                        leaf(TestProps { bar: 33, ..Default::default() }),
                        leaf(TestProps {
                            bar: {
                                let mut x = 0;
                                x += 2 * 5;
                                x
                            },
                            ..Default::default()
                        }),
                    ],
                }],
            },
            leaf(TestProps { foo: 100, ..Default::default() }),
        ],
    };

    #[allow(unused_variables)]
    let g = RusxNode {
        props: TestProps { foo: "no", bar: "sure" },
        children: vec![
            leaf(TestProps { foo: "awful", bar: "terrible" }),
            RusxNode {
                props: TestProps::default(),
                children: vec![leaf(TestProps::default()), leaf(TestProps::default())],
            },
        ],
    };

    let h = RusxNode {
        props: TestProps { foo: (Some(1.0), Some(2.0)), ..Default::default() },
        children: vec![
            leaf(TestProps { foo: (Some(1.0), Some(2.0)), ..Default::default() }),
            RusxNode {
                props: TestProps::default(),
                children: vec![leaf(TestProps::default()), leaf(TestProps::default())],
            },
        ],
    };

    println!("{:#?}", n);
    println!("{:#?}", h);
}

#[test]
fn bubble_down() {
    let mut n = RusxNode {
        props: TestProps { foo: 10u8, bar: 20 },
        children: vec![
            leaf(TestProps { foo: 1, ..Default::default() }),
            RusxNode {
                props: TestProps { foo: 100, ..Default::default() },
                children: vec![leaf(TestProps { bar: 222, ..Default::default() })],
            },
        ],
    };

    n.bubble_down(&mut PrintFoo);
}

#[test]
fn bubble_up() {
    let mut n = RusxNode {
        props: TestProps { foo: 10u8, bar: 20 },
        children: vec![
            leaf(TestProps { foo: 1, ..Default::default() }),
            leaf(TestProps { foo: 100, ..Default::default() }),
        ],
    };

    n.bubble_up(&mut BumpFoo);

    assert_eq!(n.props.foo, 11);
    assert_eq!(n.children[0].props.foo, 2);
    assert_eq!(n.children[1].props.foo, 101);
}
