use vstd::prelude::*;

use crate::link::{Link, LinkModel};

verus! {

/// What a node is, as mathematics: its key, its prompt and its links in order.
pub struct NodeModel {
    pub key: Seq<char>,
    pub dialogue: Seq<char>,
    pub links: Seq<LinkModel>,
}

/// A vertex of a dialogue graph: a unique key, the prompt shown when it is
/// visited, and the ordered choices that lead on from it.
#[derive(Debug, Clone, PartialEq, Eq)]
pub struct Node {
    /// The key of this node, unique within a tree.
    pub key: String,
    /// The prompt shown when this node is visited.
    pub dialogue: String,
    /// The choices that lead on from this node, in the order they are offered.
    pub links: Vec<Link>,
}

impl View for Node {
    type V = NodeModel;

    open spec fn view(&self) -> NodeModel {
        NodeModel { key: self.key@, dialogue: self.dialogue@, links: self.links_model() }
    }
}

impl Node {
    /// The links of this node, each as its model.
    pub open spec fn links_model(&self) -> Seq<LinkModel> {
        self.links@.map_values(|l: Link| l@)
    }

    /// A node keyed `key` with prompt `dialogue` and no links.
    pub fn new(key: &str, dialogue: &str) -> (r: Node)
        ensures
            r@ == (NodeModel { key: key@, dialogue: dialogue@, links: Seq::empty() }),
    {
        let r = Node { key: key.to_owned(), dialogue: dialogue.to_owned(), links: Vec::new() };
        assert(r.links_model() =~= Seq::empty());
        r
    }

    /// The key of this node.
    pub fn key(&self) -> (r: &String)
        ensures
            r@ == self.key@,
    {
        &self.key
    }

    /// The links of this node.
    pub fn links(&self) -> (r: &Vec<Link>)
        ensures
            r@ == self.links@,
    {
        &self.links
    }

    /// The prompt of this node.
    pub fn description(&self) -> (r: &String)
        ensures
            r@ == self.dialogue@,
    {
        &self.dialogue
    }
}

} // verus!
