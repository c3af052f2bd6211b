use vstd::prelude::*;

use crate::node::Node;

verus! {

/// What a link is, as mathematics: the key it leads to and its choice text.
pub struct LinkModel {
    pub to_key: Seq<char>,
    pub dialogue: Seq<char>,
}

/// A one-way path to the node with key `to_key`, offered to the user as `dialogue`.
#[derive(Debug, Clone, PartialEq, Eq)]
pub struct Link {
    /// The key of the node this link leads to.
    pub to_key: String,
    /// The choice text that describes this link.
    pub dialogue: String,
}

impl View for Link {
    type V = LinkModel;

    open spec fn view(&self) -> LinkModel {
        LinkModel { to_key: self.to_key@, dialogue: self.dialogue@ }
    }
}

impl Link {
    /// A link to the node keyed `to_key`, described by `dialogue`.
    pub fn new(to_key: &str, dialogue: &str) -> (r: Link)
        ensures
            r.to_key@ == to_key@,
            r.dialogue@ == dialogue@,
    {
        Link { to_key: to_key.to_owned(), dialogue: dialogue.to_owned() }
    }

    /// Appends to `from` a link that leads to `to`, described by `dialogue`.
    pub fn link(from: &mut Node, to: &Node, dialogue: &str)
        ensures
            final(from).key@ == old(from).key@,
            final(from).dialogue@ == old(from).dialogue@,
            final(from).links@.len() == old(from).links@.len() + 1,
            final(from).links_model() == old(from).links_model().push(
                (LinkModel { to_key: to.key@, dialogue: dialogue@ }),
            ),
    {
        let link = Link { to_key: to.key.clone(), dialogue: dialogue.to_owned() };
        from.links.push(link);
    }

    /// The key of the node this link leads to.
    pub fn to(&self) -> (r: &String)
        ensures
            r@ == self.to_key@,
    {
        &self.to_key
    }

    /// The choice text of this link.
    pub fn description(&self) -> (r: &str)
        ensures
            r@ == self.dialogue@,
    {
        self.dialogue.as_str()
    }
}

} // verus!
