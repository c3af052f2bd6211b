//! Turning YAML text into a validated tree.
//!
//! A document is a mapping with a string `root` and a mapping `nodes` of at
//! least one entry. Each entry maps a node key to a mapping with a string
//! `dialogue` and, optionally, `links`: a non-empty sequence of single-entry
//! mappings from a target key to the choice text. Link targets are not checked
//! against the keys, nor is every node required to be reachable from the root.
//! Where a key appears twice under `nodes`, the later entry wins.

use vstd::prelude::*;
use vstd::string::StringExecFns;

use crate::error::ImportError;
use crate::link::{Link, LinkModel};
use crate::node::{Node, NodeModel};
use crate::tree::{has_key, insert_node, CTree, TreeError, TreeFault, TreeModel};
use crate::yaml::{
    entries, lemma_array_view, lemma_hash_view, load_documents, models, yaml_documents, YamlModel,
    YamlValue,
};

verus! {

/// The value under the string key `k` among `h`: the first entry whose key is
/// that string.
pub open spec fn lookup(h: Seq<(YamlModel, YamlModel)>, k: Seq<char>) -> Option<YamlModel>
    decreases h.len(),
{
    if h.len() == 0 {
        None
    } else if h[0].0 == YamlModel::Str(k) {
        Some(h[0].1)
    } else {
        lookup(h.drop_first(), k)
    }
}

/// The value under the string key `k` of a mapping; `None` where `v` is not a
/// mapping or has no such key.
pub open spec fn field(v: YamlModel, k: Seq<char>) -> Option<YamlModel> {
    match v {
        YamlModel::Hash(h) => lookup(h, k),
        _ => None,
    }
}

/// A broken rule, with the text that names it.
pub open spec fn invalid(msg: Seq<char>) -> TreeFault {
    TreeFault::Validation(msg)
}

// The texts of the validation errors; where a key is named, it follows the text.

pub open spec fn msg_root() -> Seq<char> {
    "YAML does not contain top-level string key for `root`"@
}

pub open spec fn msg_nodes() -> Seq<char> {
    "YAML does not contain top-level hash for `nodes`"@
}

pub open spec fn msg_no_nodes() -> Seq<char> {
    "Node map has a length of 0"@
}

pub open spec fn msg_key() -> Seq<char> {
    "YAML node key is not a string"@
}

pub open spec fn msg_data() -> Seq<char> {
    "YAML node data is not a hash"@
}

pub open spec fn msg_no_dialogue() -> Seq<char> {
    "YAML does not contain dialogue for "@
}

pub open spec fn msg_dialogue() -> Seq<char> {
    "YAML dialogue is not a string for "@
}

pub open spec fn msg_links() -> Seq<char> {
    "YAML link data is not an array"@
}

pub open spec fn msg_no_links() -> Seq<char> {
    "Links array has a length of 0"@
}

pub open spec fn msg_link() -> Seq<char> {
    "YAML link is not a single-entry hash"@
}

pub open spec fn msg_link_name() -> Seq<char> {
    "YAML link name is not a string"@
}

pub open spec fn msg_link_dialogue() -> Seq<char> {
    "YAML link dialogue is not a string for "@
}

/// The link that one single-entry link mapping describes.
pub open spec fn link_of(entry: YamlModel) -> Result<LinkModel, TreeFault> {
    match entry {
        YamlModel::Hash(h) => if h.len() != 1 {
            Err(invalid(msg_link()))
        } else {
            match h[0].0 {
                YamlModel::Str(to) => match h[0].1 {
                    YamlModel::Str(d) => Ok(LinkModel { to_key: to, dialogue: d }),
                    _ => Err(invalid(msg_link_dialogue() + to)),
                },
                _ => Err(invalid(msg_link_name())),
            }
        },
        _ => Err(invalid(msg_link())),
    }
}

/// The links that a sequence of link mappings describes, in order; the first
/// fault where there is one.
pub open spec fn links_of(items: Seq<YamlModel>) -> Result<Seq<LinkModel>, TreeFault>
    decreases items.len(),
{
    if items.len() == 0 {
        Ok(Seq::empty())
    } else {
        match links_of(items.drop_last()) {
            Ok(ls) => match link_of(items.last()) {
                Ok(l) => Ok(ls.push(l)),
                Err(e) => Err(e),
            },
            Err(e) => Err(e),
        }
    }
}

/// The links that the `links` value of a node describes.
pub open spec fn link_list_of(v: YamlModel) -> Result<Seq<LinkModel>, TreeFault> {
    match v {
        YamlModel::Array(items) => if items.len() == 0 {
            Err(invalid(msg_no_links()))
        } else {
            links_of(items)
        },
        _ => Err(invalid(msg_links())),
    }
}

/// The node that an entry of `nodes` describes.
pub open spec fn node_of(k: YamlModel, v: YamlModel) -> Result<NodeModel, TreeFault> {
    match k {
        YamlModel::Str(key) => match v {
            YamlModel::Hash(data) => match lookup(data, "dialogue"@) {
                Some(YamlModel::Str(d)) => match lookup(data, "links"@) {
                    None => Ok(NodeModel { key, dialogue: d, links: Seq::empty() }),
                    Some(l) => match link_list_of(l) {
                        Ok(ls) => Ok(NodeModel { key, dialogue: d, links: ls }),
                        Err(e) => Err(e),
                    },
                },
                Some(_) => Err(invalid(msg_dialogue() + key)),
                None => Err(invalid(msg_no_dialogue() + key)),
            },
            _ => Err(invalid(msg_data())),
        },
        _ => Err(invalid(msg_key())),
    }
}

/// The nodes that the entries of `nodes` describe, each stored under its key
/// in turn; the first fault where there is one.
pub open spec fn nodes_of(es: Seq<(YamlModel, YamlModel)>) -> Result<Seq<NodeModel>, TreeFault>
    decreases es.len(),
{
    if es.len() == 0 {
        Ok(Seq::empty())
    } else {
        match nodes_of(es.drop_last()) {
            Ok(ns) => match node_of(es.last().0, es.last().1) {
                Ok(n) => Ok(insert_node(ns, n)),
                Err(e) => Err(e),
            },
            Err(e) => Err(e),
        }
    }
}

/// The tree that a document describes, rooted and positioned at its `root`;
/// or the first rule that the document breaks.
pub open spec fn tree_of_doc(doc: YamlModel) -> Result<TreeModel, TreeFault> {
    match field(doc, "root"@) {
        Some(YamlModel::Str(root)) => match field(doc, "nodes"@) {
            Some(YamlModel::Hash(es)) => if es.len() == 0 {
                Err(invalid(msg_no_nodes()))
            } else {
                match nodes_of(es) {
                    Ok(ns) => if has_key(ns, root) {
                        Ok(TreeModel { nodes: ns, root: Some(root), current: Some(root) })
                    } else {
                        Err(TreeFault::NodeDNE(root))
                    },
                    Err(e) => Err(e),
                }
            },
            _ => Err(invalid(msg_nodes())),
        },
        _ => Err(invalid(msg_root())),
    }
}

/// Once a prefix of link mappings holds a fault, the whole sequence holds it.
proof fn lemma_links_fault(s: Seq<YamlModel>, j: int)
    requires
        0 <= j <= s.len(),
        links_of(s.take(j)) is Err,
    ensures
        links_of(s) == links_of(s.take(j)),
    decreases s.len() - j,
{
    if j == s.len() {
        assert(s.take(j) =~= s);
    } else {
        assert(s.take(j + 1).drop_last() =~= s.take(j));
        lemma_links_fault(s, j + 1);
    }
}

/// Once a prefix of node entries holds a fault, all the entries hold it.
proof fn lemma_nodes_fault(s: Seq<(YamlModel, YamlModel)>, j: int)
    requires
        0 <= j <= s.len(),
        nodes_of(s.take(j)) is Err,
    ensures
        nodes_of(s) == nodes_of(s.take(j)),
    decreases s.len() - j,
{
    if j == s.len() {
        assert(s.take(j) =~= s);
    } else {
        assert(s.take(j + 1).drop_last() =~= s.take(j));
        lemma_nodes_fault(s, j + 1);
    }
}

/// The value under the string key `key` among the entries `h`.
fn get<'a>(h: &'a Vec<(YamlValue, YamlValue)>, key: &str) -> (r: Option<&'a YamlValue>)
    ensures
        match lookup(entries(h@), key@) {
            Some(v) => r matches Some(x) && x@ == v,
            None => r is None,
        },
{
    let k = key.to_owned();
    let ghost es = entries(h@);
    assert(es.subrange(0, es.len() as int) =~= es);
    let mut i: usize = 0;
    while i < h.len()
        invariant
            i <= h@.len(),
            es == entries(h@),
            k@ == key@,
            lookup(es, key@) == lookup(es.subrange(i as int, es.len() as int), key@),
        decreases h@.len() - i,
    {
        let ghost rest = es.subrange(i as int, es.len() as int);
        assert(rest.drop_first() =~= es.subrange(i + 1, es.len() as int));
        let hit = match &h[i].0 {
            YamlValue::Str(s) => *s == k,
            _ => false,
        };
        if hit {
            return Some(&h[i].1);
        }
        i = i + 1;
    }
    None
}

/// Reads `links` of a node: a non-empty sequence of single-entry mappings.
fn yaml_to_links(v: &YamlValue) -> (r: Result<Vec<Link>, TreeError>)
    ensures
        match link_list_of(v@) {
            Ok(ls) => r matches Ok(x) && x@.map_values(|l: Link| l@) == ls,
            Err(f) => r matches Err(e) && e@ == f,
        },
{
    let items = match v {
        YamlValue::Array(items) => items,
        _ => {
            return Err(TreeError::Validation("YAML link data is not an array".to_owned()));
        },
    };
    proof {
        lemma_array_view(*items);
    }
    if items.len() == 0 {
        return Err(TreeError::Validation("Links array has a length of 0".to_owned()));
    }
    let ghost ms = models(items@);
    let mut out: Vec<Link> = Vec::new();
    assert(ms.take(0) =~= Seq::<YamlModel>::empty());
    assert(out@.map_values(|l: Link| l@) =~= Seq::<LinkModel>::empty());
    let mut i: usize = 0;
    while i < items.len()
        invariant
            i <= items@.len(),
            ms == models(items@),
            link_list_of(v@) == links_of(ms),
            links_of(ms.take(i as int)) == Ok::<Seq<LinkModel>, TreeFault>(out@.map_values(|l: Link| l@)),
        decreases items@.len() - i,
    {
        assert(ms.take(i + 1).drop_last() =~= ms.take(i as int));
        assert(ms[i as int] == items@[i as int]@);
        proof {
            if link_of(ms[i as int]) is Err {
                lemma_links_fault(ms, i + 1);
            }
        }
        let h = match &items[i] {
            YamlValue::Hash(h) => h,
            _ => {
                return Err(TreeError::Validation("YAML link is not a single-entry hash".to_owned()));
            },
        };
        proof {
            lemma_hash_view(*h);
        }
        if h.len() != 1 {
            return Err(TreeError::Validation("YAML link is not a single-entry hash".to_owned()));
        }
        let to = match &h[0].0 {
            YamlValue::Str(s) => s,
            _ => {
                return Err(TreeError::Validation("YAML link name is not a string".to_owned()));
            },
        };
        let dialogue = match &h[0].1 {
            YamlValue::Str(s) => s,
            _ => {
                let mut m = "YAML link dialogue is not a string for ".to_owned();
                m.append(to.as_str());
                return Err(TreeError::Validation(m));
            },
        };
        let ghost before = out@;
        out.push(Link::new(to.as_str(), dialogue.as_str()));
        assert(out@.map_values(|l: Link| l@) =~= before.map_values(|l: Link| l@).push(
            LinkModel { to_key: to@, dialogue: dialogue@ },
        ));
        i = i + 1;
    }
    assert(ms.take(items@.len() as int) =~= ms);
    Ok(out)
}

/// The value under the string key `key` of a mapping.
fn get_field<'a>(v: &'a YamlValue, key: &str) -> (r: Option<&'a YamlValue>)
    ensures
        match field(v@, key@) {
            Some(x) => r matches Some(y) && y@ == x,
            None => r is None,
        },
{
    match v {
        YamlValue::Hash(h) => {
            proof {
                lemma_hash_view(*h);
            }
            get(h, key)
        },
        _ => None,
    }
}

/// Reads one entry of `nodes`: the node's key, and a mapping with its
/// `dialogue` and, optionally, its `links`.
pub fn yaml_to_node(k: &YamlValue, v: &YamlValue) -> (r: Result<Node, TreeError>)
    ensures
        match node_of(k@, v@) {
            Ok(n) => r matches Ok(x) && x@ == n,
            Err(f) => r matches Err(e) && e@ == f,
        },
{
    let key = match k {
        YamlValue::Str(s) => s,
        _ => {
            return Err(TreeError::Validation("YAML node key is not a string".to_owned()));
        },
    };
    let data = match v {
        YamlValue::Hash(h) => h,
        _ => {
            return Err(TreeError::Validation("YAML node data is not a hash".to_owned()));
        },
    };
    proof {
        lemma_hash_view(*data);
    }
    let dialogue = match get(data, "dialogue") {
        Some(YamlValue::Str(d)) => d,
        Some(_) => {
            let mut m = "YAML dialogue is not a string for ".to_owned();
            m.append(key.as_str());
            return Err(TreeError::Validation(m));
        },
        None => {
            let mut m = "YAML does not contain dialogue for ".to_owned();
            m.append(key.as_str());
            return Err(TreeError::Validation(m));
        },
    };
    let mut node = Node::new(key.as_str(), dialogue.as_str());
    match get(data, "links") {
        Some(l) => {
            let links = yaml_to_links(l)?;
            node.links = links;
        },
        None => {},
    }
    Ok(node)
}

/// Reads a whole document into a tree, rooted and positioned at its `root`;
/// fails on the first rule that the document breaks.
pub fn yaml_to_tree(doc: &YamlValue) -> (r: Result<CTree, TreeError>)
    ensures
        match tree_of_doc(doc@) {
            Ok(t) => r matches Ok(x) && x@ == t && x@.wf(),
            Err(f) => r matches Err(e) && e@ == f,
        },
{
    let root = match get_field(doc, "root") {
        Some(YamlValue::Str(s)) => s,
        _ => {
            return Err(
                TreeError::Validation("YAML does not contain top-level string key for `root`".to_owned()),
            );
        },
    };
    let es = match get_field(doc, "nodes") {
        Some(YamlValue::Hash(h)) => h,
        _ => {
            return Err(TreeError::Validation("YAML does not contain top-level hash for `nodes`".to_owned()));
        },
    };
    proof {
        lemma_hash_view(*es);
    }
    if es.len() == 0 {
        return Err(TreeError::Validation("Node map has a length of 0".to_owned()));
    }
    let ghost em = entries(es@);
    let mut tree = CTree::new();
    assert(em.take(0) =~= Seq::<(YamlModel, YamlModel)>::empty());
    let mut i: usize = 0;
    while i < es.len()
        invariant
            i <= es@.len(),
            em == entries(es@),
            em.len() > 0,
            field(doc@, "root"@) == Some(YamlModel::Str(root@)),
            field(doc@, "nodes"@) == Some(YamlModel::Hash(em)),
            nodes_of(em.take(i as int)) is Ok,
            tree@ == (TreeModel { nodes: nodes_of(em.take(i as int))->Ok_0, root: None, current: None }),
            tree@.wf(),
        decreases es@.len() - i,
    {
        assert(em.take(i + 1).drop_last() =~= em.take(i as int));
        assert(em[i as int] == (es@[i as int].0@, es@[i as int].1@));
        let node = match yaml_to_node(&es[i].0, &es[i].1) {
            Ok(n) => n,
            Err(e) => {
                proof {
                    lemma_nodes_fault(em, i + 1);
                }
                return Err(e);
            },
        };
        tree.insert_node(node);
        i = i + 1;
    }
    assert(em.take(es@.len() as int) =~= em);
    if tree.node(root.as_str()).is_none() {
        return Err(TreeError::NodeDNE(root.clone()));
    }
    tree.start_at(root);
    Ok(tree)
}

/// Imports a tree from YAML text: the text must hold exactly one document,
/// which must describe a valid tree.
pub fn source_to_tree(source: &str) -> (r: Result<CTree, ImportError>)
    ensures
        match yaml_documents(source@) {
            None => r matches Err(ImportError::Scan(_)),
            Some(ds) => if ds.len() != 1 {
                r matches Err(ImportError::MultipleDocumentsProvided())
            } else {
                match tree_of_doc(ds[0]) {
                    Ok(t) => r matches Ok(x) && x@ == t && x@.wf(),
                    Err(f) => r matches Err(ImportError::Validation(e)) && e@ == f,
                }
            },
        },
{
    let docs = match load_documents(source) {
        Ok(d) => d,
        Err(e) => {
            return Err(ImportError::Scan(e));
        },
    };
    if docs.len() != 1 {
        return Err(ImportError::MultipleDocumentsProvided());
    }
    assert(models(docs@)[0] == docs@[0]@);
    match yaml_to_tree(&docs[0]) {
        Ok(t) => Ok(t),
        Err(e) => Err(ImportError::Validation(e)),
    }
}

impl CTree {
    /// Imports a tree from YAML text, as `source_to_tree` does.
    pub fn try_from(source: &str) -> (r: Result<CTree, ImportError>)
        ensures
            match yaml_documents(source@) {
                None => r matches Err(ImportError::Scan(_)),
                Some(ds) => if ds.len() != 1 {
                    r matches Err(ImportError::MultipleDocumentsProvided())
                } else {
                    match tree_of_doc(ds[0]) {
                        Ok(t) => r matches Ok(x) && x@ == t && x@.wf(),
                        Err(f) => r matches Err(ImportError::Validation(e)) && e@ == f,
                    }
                },
            },
    {
        source_to_tree(source)
    }
}

} // verus!
