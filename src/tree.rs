use vstd::prelude::*;

use crate::node::{Node, NodeModel};

verus! {

/// What a failed tree operation reports, as mathematics.
pub enum TreeFault {
    RootNotSet,
    CurrentNotSet,
    NodeDNE(Seq<char>),
    Validation(Seq<char>),
}

/// The errors of tree operations and of the rules a tree must obey.
#[derive(Debug, Clone, PartialEq, Eq)]
pub enum TreeError {
    /// The tree has no root node.
    RootNotSet(),
    /// The tree has no current node.
    CurrentNotSet(),
    /// No node of the tree has the given key.
    NodeDNE(String),
    /// A rule that a tree must obey is broken; the text says which.
    Validation(String),
}

impl View for TreeError {
    type V = TreeFault;

    open spec fn view(&self) -> TreeFault {
        match self {
            TreeError::RootNotSet() => TreeFault::RootNotSet,
            TreeError::CurrentNotSet() => TreeFault::CurrentNotSet,
            TreeError::NodeDNE(k) => TreeFault::NodeDNE(k@),
            TreeError::Validation(m) => TreeFault::Validation(m@),
        }
    }
}

/// No two of `nodes` share a key.
pub open spec fn unique_keys(nodes: Seq<NodeModel>) -> bool {
    forall|i: int, j: int|
        0 <= i < nodes.len() && 0 <= j < nodes.len() && i != j ==> nodes[i].key != nodes[j].key
}

/// Some node of `nodes` has key `k`.
pub open spec fn has_key(nodes: Seq<NodeModel>, k: Seq<char>) -> bool {
    exists|i: int| 0 <= i < nodes.len() && nodes[i].key == k
}

/// The position of the node keyed `k`, where there is one.
pub open spec fn index_of(nodes: Seq<NodeModel>, k: Seq<char>) -> int {
    choose|i: int| 0 <= i < nodes.len() && nodes[i].key == k
}

/// `nodes` after storing `n` under its key: a node of that key is replaced in
/// place, else `n` goes after the others.
pub open spec fn insert_node(nodes: Seq<NodeModel>, n: NodeModel) -> Seq<NodeModel> {
    if has_key(nodes, n.key) {
        nodes.update(index_of(nodes, n.key), n)
    } else {
        nodes.push(n)
    }
}

/// What a tree is, as mathematics: its nodes in the order they were stored,
/// and the keys of its root and of its current node.
pub struct TreeModel {
    pub nodes: Seq<NodeModel>,
    pub root: Option<Seq<char>>,
    pub current: Option<Seq<char>>,
}

impl TreeModel {
    /// In a tree of unique keys, the node found at `i` is the node of its key.
    pub proof fn lemma_index(self, i: int, k: Seq<char>)
        requires
            unique_keys(self.nodes),
            0 <= i < self.nodes.len(),
            self.nodes[i].key == k,
        ensures
            self.contains(k),
            index_of(self.nodes, k) == i,
            self.node(k) == self.nodes[i],
    {
        assert(self.contains(k));
    }

    /// The tree with no nodes, no root and no current node.
    pub open spec fn empty() -> TreeModel {
        TreeModel { nodes: Seq::empty(), root: None, current: None }
    }

    /// Some node has key `k`.
    pub open spec fn contains(self, k: Seq<char>) -> bool {
        has_key(self.nodes, k)
    }

    /// The node keyed `k`.
    pub open spec fn node(self, k: Seq<char>) -> NodeModel {
        self.nodes[index_of(self.nodes, k)]
    }

    /// The tree after its root is set to `k`; where no current node was set,
    /// the walk is placed at `k` too.
    pub open spec fn with_root(self, k: Seq<char>) -> TreeModel {
        TreeModel {
            root: Some(k),
            current: if self.current is None { Some(k) } else { self.current },
            ..self
        }
    }

    /// The tree after the walk moves to `k`.
    pub open spec fn with_current(self, k: Seq<char>) -> TreeModel {
        TreeModel { current: Some(k), ..self }
    }

    /// The tree after the walk returns to the root.
    pub open spec fn rewound(self) -> TreeModel {
        TreeModel { current: self.root, ..self }
    }

    /// The tree after the walk moves to each of `ks` in turn.
    pub open spec fn walk(self, ks: Seq<Seq<char>>) -> TreeModel
        decreases ks.len(),
    {
        if ks.len() == 0 {
            self
        } else {
            self.walk(ks.drop_last()).with_current(ks.last())
        }
    }

    /// Keys are unique, and the root and the current key, each where it is
    /// set, name a node of the tree.
    pub open spec fn wf(self) -> bool {
        &&& unique_keys(self.nodes)
        &&& (self.root matches Some(r) ==> self.contains(r))
        &&& (self.current matches Some(c) ==> self.contains(c))
    }
}

/// An optional key, as the sequence of its characters.
pub open spec fn key_view(k: Option<String>) -> Option<Seq<char>> {
    match k {
        Some(s) => Some(s@),
        None => None,
    }
}

/// An optional borrowed key, as the sequence of its characters.
pub open spec fn key_ref_view(k: Option<&String>) -> Option<Seq<char>> {
    match k {
        Some(s) => Some(s@),
        None => None,
    }
}

/// A conversation tree: the nodes of a dialogue, keyed uniquely, with a root to
/// start from and a current node that a walk has reached.
#[derive(Debug, Clone)]
pub struct CTree {
    nodes: Vec<Node>,
    root_key: Option<String>,
    current_key: Option<String>,
}

impl View for CTree {
    type V = TreeModel;

    closed spec fn view(&self) -> TreeModel {
        TreeModel {
            nodes: self.nodes@.map_values(|n: Node| n@),
            root: key_view(self.root_key),
            current: key_view(self.current_key),
        }
    }
}

impl CTree {
    /// A tree with no nodes, no root and no current node.
    pub fn new() -> (r: CTree)
        ensures
            r@ == TreeModel::empty(),
            r@.wf(),
    {
        let r = CTree { nodes: Vec::new(), root_key: None, current_key: None };
        assert(r@.nodes =~= Seq::empty());
        r
    }

    /// Where the node keyed `key` stands in the tree's order, if there is one.
    fn find(&self, key: &String) -> (r: Option<usize>)
        ensures
            match r {
                Some(i) => i < self@.nodes.len() && self@.nodes[i as int].key == key@,
                None => !self@.contains(key@),
            },
    {
        let mut i: usize = 0;
        while i < self.nodes.len()
            invariant
                i <= self.nodes@.len(),
                forall|j: int| 0 <= j < i ==> self@.nodes[j].key != key@,
            decreases self.nodes@.len() - i,
        {
            if self.nodes[i].key == *key {
                return Some(i);
            }
            i = i + 1;
        }
        None
    }


    /// The node keyed `key`, if the tree has one.
    pub fn node(&self, key: &str) -> (r: Option<&Node>)
        requires
            self@.wf(),
        ensures
            match r {
                Some(n) => self@.contains(key@) && n@ == self@.node(key@),
                None => !self@.contains(key@),
            },
    {
        let k = key.to_owned();
        match self.find(&k) {
            Some(i) => {
                proof {
                    self@.lemma_index(i as int, key@);
                }
                Some(&self.nodes[i])
            },
            None => None,
        }
    }

    /// Stores `node` under its key. A node of the same key is replaced where it
    /// stands; otherwise `node` goes after all the others. Root and current stay.
    pub fn insert_node(&mut self, node: Node)
        requires
            old(self)@.wf(),
        ensures
            final(self)@ == (TreeModel { nodes: insert_node(old(self)@.nodes, node@), ..old(self)@ }),
            final(self)@.wf(),
    {
        let found = self.find(&node.key);
        let ghost nv = node@;
        let ghost before = self@;
        match found {
            Some(i) => {
                proof {
                    before.lemma_index(i as int, nv.key);
                }
                self.nodes.set(i, node);
                proof {
                    assert(self@.nodes =~= before.nodes.update(i as int, nv));
                    assert forall|k: Seq<char>| before.contains(k) implies self@.contains(k) by {
                        let j = choose|j: int| 0 <= j < before.nodes.len() && before.nodes[j].key == k;
                        assert(self@.nodes[j].key == k);
                    }
                }
            },
            None => {
                self.nodes.push(node);
                proof {
                    assert(self@.nodes =~= before.nodes.push(nv));
                    assert forall|k: Seq<char>| before.contains(k) implies self@.contains(k) by {
                        let j = choose|j: int| 0 <= j < before.nodes.len() && before.nodes[j].key == k;
                        assert(self@.nodes[j].key == k);
                    }
                }
            },
        }
    }

    /// The nodes of the tree, in the order they were stored.
    pub fn nodes(&self) -> (r: &Vec<Node>)
        ensures
            r@.map_values(|n: Node| n@) == self@.nodes,
    {
        &self.nodes
    }

    /// The key of the root node, if a root is set.
    pub fn root_key(&self) -> (r: Option<&String>)
        ensures
            key_ref_view(r) == self@.root,
    {
        self.root_key.as_ref()
    }

    /// The root node, if a root is set.
    pub fn root_node(&self) -> (r: Option<&Node>)
        requires
            self@.wf(),
        ensures
            match self@.root {
                Some(k) => r matches Some(n) && n@ == self@.node(k),
                None => r is None,
            },
    {
        match &self.root_key {
            Some(k) => self.node(k.as_str()),
            None => None,
        }
    }

    /// Makes the node keyed `key` the root. Where no current node is set, the
    /// walk is placed at the new root as well. Fails, changing nothing, where
    /// no node has that key.
    pub fn set_root(&mut self, key: &str) -> (r: Result<(), TreeError>)
        requires
            old(self)@.wf(),
        ensures
            final(self)@.wf(),
            match r {
                Ok(()) => old(self)@.contains(key@) && final(self)@ == old(self)@.with_root(key@),
                Err(e) => !old(self)@.contains(key@) && e@ == TreeFault::NodeDNE(key@)
                    && final(self)@ == old(self)@,
            },
    {
        let k = key.to_owned();
        if self.find(&k).is_none() {
            return Err(TreeError::NodeDNE(k));
        }
        if self.current_key.is_none() {
            self.current_key = Some(k.clone());
        }
        self.root_key = Some(k);
        Ok(())
    }

    /// The key of the current node, if one is set.
    pub fn current_key(&self) -> (r: Option<&String>)
        ensures
            key_ref_view(r) == self@.current,
    {
        self.current_key.as_ref()
    }

    /// The current node, if one is set.
    pub fn current_node(&self) -> (r: Option<&Node>)
        requires
            self@.wf(),
        ensures
            match self@.current {
                Some(k) => r matches Some(n) && n@ == self@.node(k),
                None => r is None,
            },
    {
        match &self.current_key {
            Some(k) => self.node(k.as_str()),
            None => None,
        }
    }

    /// Moves the walk to the node keyed `key`; the root stays. Fails, changing
    /// nothing, where no node has that key.
    pub fn set_current(&mut self, key: &str) -> (r: Result<(), TreeError>)
        requires
            old(self)@.wf(),
        ensures
            final(self)@.wf(),
            match r {
                Ok(()) => old(self)@.contains(key@) && final(self)@ == old(self)@.with_current(key@),
                Err(e) => !old(self)@.contains(key@) && e@ == TreeFault::NodeDNE(key@)
                    && final(self)@ == old(self)@,
            },
    {
        let k = key.to_owned();
        if self.find(&k).is_none() {
            return Err(TreeError::NodeDNE(k));
        }
        self.current_key = Some(k);
        Ok(())
    }

    /// Moves the walk back to the root. Fails, changing nothing, where no root
    /// is set.
    pub fn rewind(&mut self) -> (r: Result<(), TreeError>)
        requires
            old(self)@.wf(),
        ensures
            final(self)@.wf(),
            match r {
                Ok(()) => old(self)@.root is Some && final(self)@ == old(self)@.rewound(),
                Err(e) => old(self)@.root is None && e@ == TreeFault::RootNotSet
                    && final(self)@ == old(self)@,
            },
    {
        match &self.root_key {
            Some(k) => {
                self.current_key = Some(k.clone());
                Ok(())
            },
            None => Err(TreeError::RootNotSet()),
        }
    }

    /// Empties the tree: no nodes, no root, no current node.
    pub fn reset(&mut self)
        ensures
            final(self)@ == TreeModel::empty(),
            final(self)@.wf(),
    {
        self.nodes = Vec::new();
        self.root_key = None;
        self.current_key = None;
        assert(self@.nodes =~= Seq::empty());
    }

    /// Places both the root and the walk at the node keyed `key`, which the
    /// caller has shown to be in the tree.
    pub(crate) fn start_at(&mut self, key: &String)
        requires
            old(self)@.wf(),
            old(self)@.contains(key@),
        ensures
            final(self)@.wf(),
            final(self)@ == (TreeModel { root: Some(key@), current: Some(key@), ..old(self)@ }),
    {
        self.root_key = Some(key.clone());
        self.current_key = Some(key.clone());
    }
}

/// Each step of a walk keeps a tree well formed: setting the root or the
/// current node to a key of the tree, returning to the root, and emptying it.
pub proof fn lemma_steps_keep_wf(t: TreeModel, k: Seq<char>)
    requires
        t.wf(),
    ensures
        t.contains(k) ==> t.with_root(k).wf() && t.with_current(k).wf(),
        t.rewound().wf(),
        TreeModel::empty().wf(),
{
}

/// On a tree with no current node, setting the root to `k` places both the
/// root and the walk at `k`; setting it again, to `k2`, moves only the root.
pub proof fn lemma_first_root(t: TreeModel, k: Seq<char>, k2: Seq<char>)
    requires
        t.wf(),
        t.current is None,
        t.contains(k),
        t.contains(k2),
    ensures
        t.with_root(k).root == Some(k),
        t.with_root(k).current == Some(k),
        t.with_root(k).with_root(k2) == (TreeModel { root: Some(k2), ..t.with_root(k) }),
{
}

/// A walk leaves the root where it is.
pub proof fn lemma_walk_keeps_root(t: TreeModel, ks: Seq<Seq<char>>)
    ensures
        t.walk(ks).root == t.root,
        t.walk(ks).nodes == t.nodes,
    decreases ks.len(),
{
    if ks.len() > 0 {
        lemma_walk_keeps_root(t, ks.drop_last());
    }
}

/// After the root is set to `r` and the walk moves to any keys of the tree,
/// returning to the root places the walk at `r`.
pub proof fn lemma_rewind_to_root(t: TreeModel, r: Seq<char>, ks: Seq<Seq<char>>)
    requires
        t.wf(),
        t.contains(r),
        forall|i: int| 0 <= i < ks.len() ==> t.contains(#[trigger] ks[i]),
    ensures
        t.with_root(r).walk(ks).rewound().current == Some(r),
{
    lemma_walk_keeps_root(t.with_root(r), ks);
}

impl Default for CTree {
    fn default() -> (r: CTree)
        ensures
            r@ == TreeModel::empty(),
            r@.wf(),
    {
        CTree::new()
    }
}

} // verus!
