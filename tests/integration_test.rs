use convo::{CTree, Link, Node};

#[test]
// Basic print out of all nodes and links
fn integration_test_test_print() {
    let mut tree = CTree::default();

    // Build some nodes
    let root_key = "root";
    let mut node1 = Node::new(root_key, "How are you?");
    let node2 = Node::new("end", "Don't be late!");

    // Link node1 -> node 2
    Link::link(&mut node1, &node2, "Sorry, I'm in a hurry!");

    // Populate the tree
    tree.insert_node(node1);
    tree.insert_node(node2);

    // Set node1 as root
    tree.set_root(root_key).unwrap();

    // Print root node:
    println!("Node root: [{}]", tree.root_key().unwrap());

    // Print them all out
    for node in tree.nodes() {
        println!("Node [{}]: '{}'", node.key, node.dialogue);
        for link in &node.links {
            if let Some(link_node) = tree.node(link.to()) {
                println!("Link [{}]->[{}]: '{}'", node.key, link_node.key, link.description());
            }
        }
    }
}
