//! Turning a tree into YAML text, the inverse of the importer's grammar.
//!
//! The document is a mapping of `root` to the root key and of `nodes` to a
//! mapping from each key, in the tree's order, to the node's `dialogue` and,
//! where it has any, its `links` as single-entry mappings in order.

use vstd::prelude::*;

use crate::error::ExportError;
use crate::importer::{
    link_list_of, link_of, links_of, lookup, msg_no_nodes, node_of, nodes_of, tree_of_doc,
};
use crate::link::{Link, LinkModel};
use crate::node::{Node, NodeModel};
use crate::tree::{has_key, index_of, insert_node, unique_keys, CTree, TreeError, TreeFault, TreeModel};
use crate::yaml::{
    emit_document, entries, lemma_array_view, lemma_hash_view, models, yaml_text, YamlModel, YamlValue,
};

verus! {

/// The single-entry mapping that stands for a link.
pub open spec fn link_doc(l: LinkModel) -> YamlModel {
    YamlModel::Hash(seq![(YamlModel::Str(l.to_key), YamlModel::Str(l.dialogue))])
}

/// The mapping that stands for a node: its `dialogue`, then its `links` where
/// it has any.
pub open spec fn node_doc(n: NodeModel) -> YamlModel {
    let d = seq![(YamlModel::Str("dialogue"@), YamlModel::Str(n.dialogue))];
    if n.links.len() == 0 {
        YamlModel::Hash(d)
    } else {
        YamlModel::Hash(
            d.push((YamlModel::Str("links"@), YamlModel::Array(n.links.map_values(|l: LinkModel| link_doc(l))))),
        )
    }
}

/// The entries of `nodes`: each node's key mapped to its mapping, in order.
pub open spec fn node_entries(nodes: Seq<NodeModel>) -> Seq<(YamlModel, YamlModel)> {
    nodes.map_values(|n: NodeModel| (YamlModel::Str(n.key), node_doc(n)))
}

/// The document that stands for a tree with root `root`.
pub open spec fn tree_doc(t: TreeModel, root: Seq<char>) -> YamlModel {
    YamlModel::Hash(
        seq![
            (YamlModel::Str("root"@), YamlModel::Str(root)),
            (YamlModel::Str("nodes"@), YamlModel::Hash(node_entries(t.nodes))),
        ],
    )
}

/// The document of a tree, or the rule that keeps it from being exported.
pub open spec fn export_doc(t: TreeModel) -> Result<YamlModel, TreeFault> {
    match t.root {
        None => Err(TreeFault::RootNotSet),
        Some(root) => if t.nodes.len() == 0 {
            Err(TreeFault::Validation(msg_no_nodes()))
        } else {
            Ok(tree_doc(t, root))
        },
    }
}

fn link_to_yaml(link: &Link) -> (r: YamlValue)
    ensures
        r@ == link_doc(link@),
{
    let mut h: Vec<(YamlValue, YamlValue)> = Vec::new();
    h.push((YamlValue::Str(link.to_key.clone()), YamlValue::Str(link.dialogue.clone())));
    proof {
        lemma_hash_view(h);
        assert(entries(h@) =~= seq![(YamlModel::Str(link.to_key@), YamlModel::Str(link.dialogue@))]);
    }
    YamlValue::Hash(h)
}

fn node_to_yaml(node: &Node) -> (r: YamlValue)
    ensures
        r@ == node_doc(node@),
{
    let ghost lm = node@.links;
    let ghost d = seq![(YamlModel::Str("dialogue"@), YamlModel::Str(node@.dialogue))];
    let mut map: Vec<(YamlValue, YamlValue)> = Vec::new();
    map.push((YamlValue::Str("dialogue".to_owned()), YamlValue::Str(node.dialogue.clone())));
    assert(entries(map@) =~= d);
    if node.links.len() > 0 {
        let mut links: Vec<YamlValue> = Vec::new();
        let mut i: usize = 0;
        while i < node.links.len()
            invariant
                i <= node.links@.len(),
                lm == node@.links,
                models(links@) =~= lm.take(i as int).map_values(|l: LinkModel| link_doc(l)),
            decreases node.links@.len() - i,
        {
            let y = link_to_yaml(&node.links[i]);
            let ghost before = links@;
            links.push(y);
            assert(models(links@) =~= models(before).push(y@));
            assert(lm[i as int] == node.links@[i as int]@);
            assert(lm.take(i + 1) =~= lm.take(i as int).push(lm[i as int]));
            i = i + 1;
        }
        assert(lm.take(lm.len() as int) =~= lm);
        proof {
            lemma_array_view(links);
        }
        map.push((YamlValue::Str("links".to_owned()), YamlValue::Array(links)));
        assert(entries(map@) =~= d.push(
            (YamlModel::Str("links"@), YamlModel::Array(lm.map_values(|l: LinkModel| link_doc(l)))),
        ));
    }
    proof {
        lemma_hash_view(map);
    }
    YamlValue::Hash(map)
}

/// Builds the document of a tree; fails where no root is set or the tree has
/// no nodes.
pub fn tree_to_yaml(tree: &CTree) -> (r: Result<YamlValue, TreeError>)
    requires
        tree@.wf(),
    ensures
        match export_doc(tree@) {
            Ok(d) => r matches Ok(v) && v@ == d,
            Err(f) => r matches Err(e) && e@ == f,
        },
{
    let root = match tree.root_key() {
        Some(k) => k,
        None => {
            return Err(TreeError::RootNotSet());
        },
    };
    let nodes = tree.nodes();
    let ghost tn = tree@.nodes;
    if nodes.len() == 0 {
        return Err(TreeError::Validation("Node map has a length of 0".to_owned()));
    }
    let mut node_map: Vec<(YamlValue, YamlValue)> = Vec::new();
    let mut i: usize = 0;
    while i < nodes.len()
        invariant
            i <= nodes@.len(),
            tn == nodes@.map_values(|n: Node| n@),
            entries(node_map@) =~= node_entries(tn.take(i as int)),
        decreases nodes@.len() - i,
    {
        let y = node_to_yaml(&nodes[i]);
        let k = nodes[i].key.clone();
        let ghost before = node_map@;
        let ghost e = (YamlModel::Str(k@), y@);
        node_map.push((YamlValue::Str(k), y));
        assert(entries(node_map@) =~= entries(before).push(e));
        assert(tn[i as int] == nodes@[i as int]@);
        assert(tn.take(i + 1) =~= tn.take(i as int).push(tn[i as int]));
        i = i + 1;
    }
    assert(tn.take(tn.len() as int) =~= tn);
    proof {
        lemma_hash_view(node_map);
    }
    let mut top: Vec<(YamlValue, YamlValue)> = Vec::new();
    top.push((YamlValue::Str("root".to_owned()), YamlValue::Str(root.clone())));
    top.push((YamlValue::Str("nodes".to_owned()), YamlValue::Hash(node_map)));
    proof {
        lemma_hash_view(top);
        assert(entries(top@) =~= tree_doc(tree@, root@)->Hash_0);
    }
    Ok(YamlValue::Hash(top))
}

/// Exports a tree as YAML text.
pub fn tree_to_source(tree: &CTree) -> (r: Result<String, ExportError>)
    requires
        tree@.wf(),
    ensures
        match export_doc(tree@) {
            Ok(d) => r matches Ok(text) && text@ == yaml_text(d),
            Err(f) => r matches Err(ExportError::Validation(e)) && e@ == f,
        },
{
    let doc = match tree_to_yaml(tree) {
        Ok(d) => d,
        Err(e) => {
            return Err(ExportError::Validation(e));
        },
    };
    match emit_document(&doc) {
        Ok(text) => Ok(text),
        Err(e) => Err(ExportError::Emit(e)),
    }
}

impl CTree {
    /// Exports this tree as YAML text, ready to be saved.
    pub fn try_export(&self) -> (r: Result<String, ExportError>)
        requires
            self@.wf(),
        ensures
            match export_doc(self@) {
                Ok(d) => r matches Ok(text) && text@ == yaml_text(d),
                Err(f) => r matches Err(ExportError::Validation(e)) && e@ == f,
            },
    {
        tree_to_source(self)
    }
}

proof fn lemma_links_back(ls: Seq<LinkModel>)
    ensures
        links_of(ls.map_values(|l: LinkModel| link_doc(l))) == Ok::<Seq<LinkModel>, TreeFault>(ls),
    decreases ls.len(),
{
    let ds = ls.map_values(|l: LinkModel| link_doc(l));
    if ls.len() == 0 {
        assert(ls =~= Seq::<LinkModel>::empty());
    } else {
        assert(ds.drop_last() =~= ls.drop_last().map_values(|l: LinkModel| link_doc(l)));
        lemma_links_back(ls.drop_last());
        assert(link_of(ds.last()) == Ok::<LinkModel, TreeFault>(ls.last()));
        assert(ls.drop_last().push(ls.last()) =~= ls);
    }
}

proof fn lemma_node_back(n: NodeModel)
    ensures
        node_of(YamlModel::Str(n.key), node_doc(n)) == Ok::<NodeModel, TreeFault>(n),
{
    reveal_strlit("dialogue");
    reveal_strlit("links");
    let d = seq![(YamlModel::Str("dialogue"@), YamlModel::Str(n.dialogue))];
    assert("dialogue"@.len() != "links"@.len());
    assert(YamlModel::Str("dialogue"@) != YamlModel::Str("links"@));
    if n.links.len() == 0 {
        assert(d.drop_first() =~= Seq::<(YamlModel, YamlModel)>::empty());
        assert(lookup(d.drop_first(), "links"@) is None);
        assert(lookup(d, "links"@) is None);
        assert(n.links =~= Seq::<LinkModel>::empty());
    } else {
        let ds = n.links.map_values(|l: LinkModel| link_doc(l));
        let h = d.push((YamlModel::Str("links"@), YamlModel::Array(ds)));
        assert(h.drop_first() =~= seq![(YamlModel::Str("links"@), YamlModel::Array(ds))]);
        assert(lookup(h.drop_first(), "links"@) == Some(YamlModel::Array(ds)));
        assert(lookup(h, "links"@) == Some(YamlModel::Array(ds)));
        lemma_links_back(n.links);
        assert(link_list_of(YamlModel::Array(ds)) == Ok::<Seq<LinkModel>, TreeFault>(n.links));
    }
}

proof fn lemma_nodes_back(ns: Seq<NodeModel>)
    requires
        unique_keys(ns),
    ensures
        nodes_of(node_entries(ns)) == Ok::<Seq<NodeModel>, TreeFault>(ns),
    decreases ns.len(),
{
    let es = node_entries(ns);
    if ns.len() == 0 {
        assert(ns =~= Seq::<NodeModel>::empty());
    } else {
        let init = ns.drop_last();
        assert(es.drop_last() =~= node_entries(init));
        lemma_nodes_back(init);
        lemma_node_back(ns.last());
        assert(!has_key(init, ns.last().key)) by {
            if has_key(init, ns.last().key) {
                let j = choose|j: int| 0 <= j < init.len() && init[j].key == ns.last().key;
                assert(ns[j].key == ns[ns.len() - 1].key);
            }
        }
        assert(insert_node(init, ns.last()) =~= ns);
    }
}

proof fn lemma_nodes_unique(es: Seq<(YamlModel, YamlModel)>)
    requires
        nodes_of(es) is Ok,
    ensures
        unique_keys(nodes_of(es)->Ok_0),
    decreases es.len(),
{
    if es.len() > 0 {
        lemma_nodes_unique(es.drop_last());
        let ns = nodes_of(es.drop_last())->Ok_0;
        let n = node_of(es.last().0, es.last().1)->Ok_0;
        if has_key(ns, n.key) {
            let i = index_of(ns, n.key);
            assert(ns.update(i, n)[i].key == ns[i].key);
        }
    }
}

/// Exporting a tree that the importer made and importing the document again
/// gives back the same tree: the same nodes in the same order, each with the
/// same dialogue and links in the same order, and the same root and current
/// node.
pub proof fn lemma_round_trip(doc: YamlModel, t: TreeModel)
    requires
        tree_of_doc(doc) == Ok::<TreeModel, TreeFault>(t),
    ensures
        t.root is Some,
        export_doc(t) == Ok::<YamlModel, TreeFault>(tree_doc(t, t.root->Some_0)),
        tree_of_doc(tree_doc(t, t.root->Some_0)) == Ok::<TreeModel, TreeFault>(t),
{
    reveal_strlit("root");
    reveal_strlit("nodes");
    let r = t.root->Some_0;
    let es = crate::importer::field(doc, "nodes"@)->Some_0->Hash_0;
    lemma_nodes_unique(es);
    lemma_nodes_back(t.nodes);
    let top = tree_doc(t, r)->Hash_0;
    assert("root"@.len() != "nodes"@.len());
    assert(YamlModel::Str("root"@) != YamlModel::Str("nodes"@));
    assert(top.drop_first() =~= seq![(YamlModel::Str("nodes"@), YamlModel::Hash(node_entries(t.nodes)))]);
    assert(lookup(top.drop_first(), "nodes"@) == Some(YamlModel::Hash(node_entries(t.nodes))));
    assert(lookup(top, "nodes"@) == Some(YamlModel::Hash(node_entries(t.nodes))));
    assert(t.nodes.len() > 0);
}

} // verus!
