use convo::error::ExportError;
use convo::exporter::{tree_to_source, tree_to_yaml};
use convo::importer::source_to_tree;
use convo::yaml::YamlValue;
use convo::{CTree, Link, Node, TreeError};

const SAMPLE: &str = r#"---
root: start
nodes:
  start:
    dialogue: "Hello, how are you?"
    links:
      - good: "I'm doing well."
      - bad: "Not so great."
  good:
    dialogue: Glad to hear it!
  bad:
    dialogue: Sorry to hear that.
    links:
      - start: Let's start over.
"#;

#[test]
fn test_tree_to_source() {
    // Test a minimum valid export
    let mut tree = CTree::new();
    let node = Node::new("start", "It's a bad day.");
    tree.insert_node(node);
    tree.set_root("start").unwrap();

    let source = r#"---
root: start
nodes:
  start:
    dialogue: "It's a bad day.""#;

    // Should be equal
    assert_eq!(source, tree_to_source(&tree).unwrap());
}

#[test]
fn test_tree_to_source_root_exists() {
    // Should fail because root node is never set
    let mut tree = CTree::new();
    let node = Node::new("start", "It's a bad day.");
    tree.insert_node(node);

    assert!(matches!(tree_to_source(&tree).unwrap_err(), ExportError::Validation(_)));
}

#[test]
fn test_tree_to_source_nodes_exist() {
    // A root can only be set on a node of the tree, so a tree without nodes
    // has no root either: export fails on the missing root.
    let tree = CTree::new();

    assert!(matches!(
        tree_to_source(&tree).unwrap_err(),
        ExportError::Validation(TreeError::RootNotSet())
    ));
}

#[test]
fn test_try_export() {
    let tree = CTree::try_from(SAMPLE).unwrap();
    let source = tree.try_export().unwrap();
    println!("{}", source);
}

#[test]
fn export_exact_text_with_links() {
    let mut tree = CTree::new();
    let mut start = Node::new("start", "Hi");
    let end = Node::new("end", "Later");
    Link::link(&mut start, &end, "Bye");
    tree.insert_node(start);
    tree.insert_node(end);
    tree.set_root("start").unwrap();
    let expected = "---\nroot: start\nnodes:\n  start:\n    dialogue: Hi\n    links:\n      - end: Bye\n  end:\n    dialogue: Later";
    assert_eq!(tree.try_export().unwrap(), expected);
}

#[test]
fn export_is_byte_identical_for_own_output() {
    let s = "---\nroot: start\nnodes:\n  start:\n    dialogue: I am a recursive node.\n    links:\n      - start: Recurse!";
    let tree = source_to_tree(s).unwrap();
    assert_eq!(tree_to_source(&tree).unwrap(), s);
}

#[test]
fn export_round_trip() {
    let tree = source_to_tree(SAMPLE).unwrap();
    let text = tree_to_source(&tree).unwrap();
    let again = source_to_tree(&text).unwrap();
    assert_eq!(again.root_key(), tree.root_key());
    assert_eq!(again.current_key(), tree.current_key());
    assert_eq!(again.nodes(), tree.nodes());
    assert_eq!(tree_to_source(&again).unwrap(), text);
}

#[test]
fn export_round_trip_of_quoted_text() {
    let source = "root: 'yes'\nnodes:\n  'yes':\n    dialogue: 'true'\n    links:\n      - '12': '- a: b, c #d'\n  '12':\n    dialogue: ''\n";
    let tree = source_to_tree(source).unwrap();
    let text = tree_to_source(&tree).unwrap();
    let again = source_to_tree(&text).unwrap();
    assert_eq!(again.nodes(), tree.nodes());
    assert_eq!(again.root_key().unwrap(), "yes");
}

#[test]
fn export_errors() {
    let tree = CTree::new();
    match tree_to_yaml(&tree) {
        Err(TreeError::RootNotSet()) => {}
        other => panic!("unexpected result: {:?}", other),
    }
    match tree.try_export() {
        Err(ExportError::Validation(TreeError::RootNotSet())) => {}
        other => panic!("unexpected result: {:?}", other),
    }
}

#[test]
fn tree_to_yaml_document_shape() {
    let mut tree = CTree::new();
    tree.insert_node(Node::new("only", "Alone"));
    tree.set_root("only").unwrap();
    let doc = tree_to_yaml(&tree).unwrap();
    let top = match doc {
        YamlValue::Hash(h) => h,
        other => panic!("unexpected document: {:?}", other),
    };
    assert_eq!(top.len(), 2);
    assert!(matches!(&top[0], (YamlValue::Str(k), YamlValue::Str(v)) if k == "root" && v == "only"));
    match &top[1] {
        (YamlValue::Str(k), YamlValue::Hash(nodes)) => {
            assert_eq!(k, "nodes");
            assert_eq!(nodes.len(), 1);
            match &nodes[0] {
                (YamlValue::Str(key), YamlValue::Hash(data)) => {
                    assert_eq!(key, "only");
                    assert_eq!(data.len(), 1);
                    assert!(matches!(&data[0], (YamlValue::Str(f), YamlValue::Str(d)) if f == "dialogue" && d == "Alone"));
                }
                other => panic!("unexpected node entry: {:?}", other),
            }
        }
        other => panic!("unexpected nodes entry: {:?}", other),
    }
}
