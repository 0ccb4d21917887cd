use std::rc::Rc;
use ulc::tree::{Branch, Leaf, Node, NodeExt};

fn r(s: &str) -> Rc<String> {
    Rc::new(s.to_string())
}

fn as_branch<'a, 'b>(n: &'b Node<'a, u8>) -> &'b Branch<'a, u8> {
    match n {
        Node::Branch(b) => b,
        Node::Leaf(_) => panic!("not a branch"),
    }
}

fn as_leaf<'a, 'b>(n: &'b Node<'a, u8>) -> &'b Leaf<'a, u8> {
    match n {
        Node::Leaf(l) => l,
        Node::Branch(_) => panic!("not a leaf"),
    }
}

#[test]
fn test_tree() {
    let array = b"Hi:::0123456789";
    let mut tree = Branch::new(r("tree"), array);

    tree.attach(Leaf::new(r("greeting"), &array[..2]));
    tree.attach(Leaf::new(r("collon"), &array[2..5]));

    assert!(tree.len() == 5);
    assert!(as_branch(&tree).get_nodes().len() == 2);

    let mut sub = Branch::new(r("two-part"), &array[5..]);
    sub.attach(Leaf::new(r("one to five"), &array[5..10]));
    sub.attach(Leaf::new(r("rest"), &array[10..]));
    tree.attach(sub);

    assert!(tree.tag() == "tree");
    assert!(tree.len() == 15);
    assert!(tree.slice() == array);

    assert!(as_branch(&tree).get_nodes().len() == 3);

    assert!(as_leaf(&as_branch(&tree).get_nodes()[0]).slice() == b"Hi");
    assert!(as_leaf(&as_branch(&tree).get_nodes()[0]).tag() == "greeting");
    assert!(as_leaf(&as_branch(&tree).get_nodes()[1]).slice() == b":::");
    assert!(as_leaf(&as_branch(&tree).get_nodes()[1]).tag() == "collon");

    assert!(as_branch(&as_branch(&tree).get_nodes()[2]).tag() == "two-part");
    assert!(as_branch(&as_branch(&tree).get_nodes()[2]).len() == 10);
    assert!(as_branch(&as_branch(&tree).get_nodes()[2]).slice() == b"0123456789");
    assert!(as_branch(&as_branch(&tree).get_nodes()[2]).get_nodes().len() == 2);
    assert!(as_leaf(&as_branch(&as_branch(&tree).get_nodes()[2]).get_nodes()[0]).slice() == b"01234");
    assert!(as_leaf(&as_branch(&as_branch(&tree).get_nodes()[2]).get_nodes()[0]).tag() == "one to five");
    assert!(as_leaf(&as_branch(&as_branch(&tree).get_nodes()[2]).get_nodes()[1]).slice() == b"56789");
    assert!(as_leaf(&as_branch(&as_branch(&tree).get_nodes()[2]).get_nodes()[1]).tag() == "rest");

    assert!(tree.get_node("one to five").unwrap().slice() == b"01234");
    assert!(tree.get_node("two-part").unwrap().slice() == b"0123456789");
    assert!(tree.get_node("tree").unwrap().slice() == array);
}

#[test]
fn get_node_finds_first_in_pre_order() {
    let array = b"abcd";
    let mut tree = Branch::new(r("t"), array);
    let mut sub = Branch::new(r("x"), &array[..2]);
    sub.attach(Leaf::new(r("y"), &array[..2]));
    tree.attach(sub);
    tree.attach(Leaf::new(r("y"), &array[2..]));
    assert!(tree.get_node("y").unwrap().slice() == b"ab");
    assert!(tree.get_node("z").is_none());
    assert!(Leaf::new(r("q"), &array[..1]).get_node("q").is_some());
}

#[test]
fn collect_in_pre_order() {
    let array = b"Hi:::0123456789";
    let mut tree = Branch::new(r("tree"), array);
    tree.attach(Leaf::new(r("greeting"), &array[..2]));
    let mut sub = Branch::new(r("two-part"), &array[5..]);
    sub.attach(Leaf::new(r("one to five"), &array[5..10]));
    sub.attach(Leaf::new(r("rest"), &array[10..]));
    tree.attach(Leaf::new(r("collon"), &array[2..5]));
    tree.attach(sub);
    let got = tree.collect(&["one to five", "two-part"]);
    assert_eq!(got.len(), 2);
    assert_eq!(*got[0].0, "two-part");
    assert_eq!(got[0].1, b"0123456789");
    assert_eq!(*got[1].0, "one to five");
    assert_eq!(got[1].1, b"01234");
    assert_eq!(tree.collect(&["greeting", "greeting"]).len(), 2);
    assert_eq!(tree.collect(&[]).len(), 0);
}
