use convo::{CTree, Link, Node, TreeError};

fn two_nodes() -> CTree {
    let mut tree = CTree::new();
    tree.insert_node(Node::new("a", "Node A"));
    tree.insert_node(Node::new("b", "Node B"));
    tree
}

#[test]
fn first_root_sets_current_too() {
    let mut tree = two_nodes();
    assert!(tree.current_key().is_none());
    tree.set_root("a").unwrap();
    assert_eq!(tree.root_key().unwrap(), "a");
    assert_eq!(tree.current_key().unwrap(), "a");

    tree.set_root("b").unwrap();
    assert_eq!(tree.root_key().unwrap(), "b");
    assert_eq!(tree.current_key().unwrap(), "a");
}

#[test]
fn failed_calls_change_nothing() {
    let mut tree = two_nodes();
    assert_eq!(tree.set_root("zzz").unwrap_err(), TreeError::NodeDNE("zzz".to_owned()));
    assert!(tree.root_key().is_none());
    assert!(tree.current_key().is_none());
    assert_eq!(tree.set_current("zzz").unwrap_err(), TreeError::NodeDNE("zzz".to_owned()));
    assert!(tree.current_key().is_none());

    tree.set_current("b").unwrap();
    assert_eq!(tree.current_key().unwrap(), "b");
    assert!(tree.root_key().is_none());
    assert!(tree.set_current("").is_err());
    assert_eq!(tree.current_key().unwrap(), "b");
}

#[test]
fn rewind_returns_to_root() {
    let mut tree = two_nodes();
    assert_eq!(tree.rewind().unwrap_err(), TreeError::RootNotSet());
    tree.set_root("a").unwrap();
    tree.set_current("b").unwrap();
    tree.set_current("a").unwrap();
    tree.set_current("b").unwrap();
    tree.rewind().unwrap();
    assert_eq!(tree.current_key().unwrap(), "a");
    assert_eq!(tree.current_node().unwrap().dialogue, "Node A");
    tree.rewind().unwrap();
    assert_eq!(tree.current_key().unwrap(), "a");
}

#[test]
fn reset_empties_the_tree() {
    let mut tree = two_nodes();
    tree.set_root("a").unwrap();
    tree.set_current("b").unwrap();
    tree.reset();
    assert_eq!(tree.nodes().len(), 0);
    assert!(tree.root_key().is_none());
    assert!(tree.current_key().is_none());
    assert!(tree.root_node().is_none());
    assert!(tree.current_node().is_none());
    tree.reset();
    assert_eq!(tree.nodes().len(), 0);
}

#[test]
fn insert_replaces_in_place() {
    let mut tree = two_nodes();
    tree.insert_node(Node::new("c", "Node C"));
    tree.insert_node(Node::new("a", "New A"));
    let keys: Vec<&str> = tree.nodes().iter().map(|n| n.key.as_str()).collect();
    assert_eq!(keys, vec!["a", "b", "c"]);
    assert_eq!(tree.node("a").unwrap().dialogue, "New A");
    assert!(tree.node("d").is_none());
}

#[test]
fn root_and_current_nodes() {
    let mut tree = CTree::new();
    let root_og = Node::new("root", "The only node.");
    tree.insert_node(root_og.clone());
    tree.set_root("root").unwrap();
    assert_eq!(&root_og, tree.root_node().unwrap());
    assert_eq!(&root_og, tree.current_node().unwrap());
}

#[test]
fn node_and_link_accessors() {
    let mut from = Node::new("from", "Where to?");
    let to = Node::new("to", "Arrived.");
    Link::link(&mut from, &to, "Go there");
    assert_eq!(from.key(), "from");
    assert_eq!(from.description(), "Where to?");
    assert_eq!(from.links().len(), 1);
    let link = &from.links()[0];
    assert_eq!(link.to(), "to");
    assert_eq!(link.description(), "Go there");
    assert_eq!(Link::new("end", "Goodbye!"), Link { to_key: "end".to_owned(), dialogue: "Goodbye!".to_owned() });
    assert!(to.links.is_empty());
}
