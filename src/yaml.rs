use vstd::prelude::*;

use yaml_rust::{EmitError, ScanError, Yaml, YamlEmitter, YamlLoader};

verus! {

broadcast use vstd::std_specs::vec::group_vec_axioms;

/// A YAML value, as mathematics.
pub enum YamlModel {
    Real(Seq<char>),
    Integer(i64),
    Str(Seq<char>),
    Boolean(bool),
    Array(Seq<YamlModel>),
    Hash(Seq<(YamlModel, YamlModel)>),
    Alias(usize),
    Null,
    BadValue,
}

/// A YAML value held as plain data: the tree that a document parses into and
/// that a document is written from. A hash keeps its entries in order.
#[derive(Debug)]
pub enum YamlValue {
    /// A float, kept as the text it was written as.
    Real(String),
    /// An integer.
    Integer(i64),
    /// A string scalar.
    Str(String),
    /// A boolean.
    Boolean(bool),
    /// A sequence of values.
    Array(Vec<YamlValue>),
    /// A mapping, as its entries in order.
    Hash(Vec<(YamlValue, YamlValue)>),
    /// An alias to an anchor.
    Alias(usize),
    /// The null value.
    Null,
    /// What a lookup finds where there is nothing.
    BadValue,
}

impl View for YamlValue {
    type V = YamlModel;

    open spec fn view(&self) -> YamlModel
        decreases self,
    {
        match self {
            YamlValue::Real(s) => YamlModel::Real(s@),
            YamlValue::Integer(i) => YamlModel::Integer(*i),
            YamlValue::Str(s) => YamlModel::Str(s@),
            YamlValue::Boolean(b) => YamlModel::Boolean(*b),
            YamlValue::Array(a) => YamlModel::Array(
                Seq::new(a@.len(), |i: int| if 0 <= i < a@.len() { a@[i].view() } else { YamlModel::Null }),
            ),
            YamlValue::Hash(h) => YamlModel::Hash(
                Seq::new(
                    h@.len(),
                    |i: int|
                        if 0 <= i < h@.len() {
                            (h@[i].0.view(), h@[i].1.view())
                        } else {
                            (YamlModel::Null, YamlModel::Null)
                        },
                ),
            ),
            YamlValue::Alias(n) => YamlModel::Alias(*n),
            YamlValue::Null => YamlModel::Null,
            YamlValue::BadValue => YamlModel::BadValue,
        }
    }
}

#[verifier::external_type_specification]
#[verifier::external_body]
pub struct ExYaml(Yaml);

/// The documents that yaml-rust's loader reads from a text, each as its model;
/// `None` where the loader reports a scan error.
pub uninterp spec fn yaml_documents(source: Seq<char>) -> Option<Seq<YamlModel>>;

/// The text that yaml-rust's emitter, in compact form, writes for a value.
pub uninterp spec fn yaml_text(doc: YamlModel) -> Seq<char>;

/// The models of a sequence of values.
pub open spec fn models(docs: Seq<YamlValue>) -> Seq<YamlModel> {
    docs.map_values(|d: YamlValue| d@)
}

/// The entries of a mapping, each as the models of its key and value.
pub open spec fn entries(h: Seq<(YamlValue, YamlValue)>) -> Seq<(YamlModel, YamlModel)> {
    h.map_values(|e: (YamlValue, YamlValue)| (e.0@, e.1@))
}

/// The model of a mapping is the models of its entries.
pub proof fn lemma_hash_view(h: Vec<(YamlValue, YamlValue)>)
    ensures
        YamlValue::Hash(h)@ == YamlModel::Hash(entries(h@)),
{
    reveal_with_fuel(<YamlValue as View>::view, 2);
    let m = YamlValue::Hash(h)@->Hash_0;
    assert forall|i: int| 0 <= i < m.len() implies m[i] == entries(h@)[i] by {}
    assert(m =~= entries(h@));
}

/// The model of a sequence is the models of its items.
pub proof fn lemma_array_view(a: Vec<YamlValue>)
    ensures
        YamlValue::Array(a)@ == YamlModel::Array(models(a@)),
{
    reveal_with_fuel(<YamlValue as View>::view, 2);
    let m = YamlValue::Array(a)@->Array_0;
    assert forall|i: int| 0 <= i < m.len() implies m[i] == models(a@)[i] by {
        assert(models(a@)[i] == a@[i]@);
    }
    assert(m =~= models(a@));
}

/// Copies a value that yaml-rust built into a `YamlValue`, variant for variant.
#[verifier::external_body]
fn from_outside(y: &Yaml) -> YamlValue {
    match y {
        Yaml::Real(s) => YamlValue::Real(s.clone()),
        Yaml::Integer(i) => YamlValue::Integer(*i),
        Yaml::String(s) => YamlValue::Str(s.clone()),
        Yaml::Boolean(b) => YamlValue::Boolean(*b),
        Yaml::Array(a) => YamlValue::Array(a.iter().map(from_outside).collect()),
        Yaml::Hash(h) => YamlValue::Hash(h.iter().map(|(k, v)| (from_outside(k), from_outside(v))).collect()),
        Yaml::Alias(n) => YamlValue::Alias(*n),
        Yaml::Null => YamlValue::Null,
        Yaml::BadValue => YamlValue::BadValue,
    }
}

/// Copies a `YamlValue` into yaml-rust's value, variant for variant.
#[verifier::external_body]
fn to_outside(v: &YamlValue) -> Yaml {
    match v {
        YamlValue::Real(s) => Yaml::Real(s.clone()),
        YamlValue::Integer(i) => Yaml::Integer(*i),
        YamlValue::Str(s) => Yaml::String(s.clone()),
        YamlValue::Boolean(b) => Yaml::Boolean(*b),
        YamlValue::Array(a) => Yaml::Array(a.iter().map(to_outside).collect()),
        YamlValue::Hash(h) => Yaml::Hash(h.iter().map(|(k, x)| (to_outside(k), to_outside(x))).collect()),
        YamlValue::Alias(n) => Yaml::Alias(*n),
        YamlValue::Null => Yaml::Null,
        YamlValue::BadValue => Yaml::BadValue,
    }
}

/// Relies on yaml_rust::YamlLoader::load_from_str: the documents of `source`,
/// or a scan error; which of the two, and the documents, depend on the text alone.
#[verifier::external_body]
pub(crate) fn load_documents(source: &str) -> (r: Result<Vec<YamlValue>, ScanError>)
    ensures
        match r {
            Ok(docs) => yaml_documents(source@) == Some(models(docs@)),
            Err(_) => yaml_documents(source@) is None,
        },
{
    let docs = YamlLoader::load_from_str(source)?;
    Ok(docs.iter().map(from_outside).collect())
}

/// Relies on yaml_rust::YamlEmitter::dump, in compact form, into a `String`:
/// its only errors come from the writer, and writing to a `String` never
/// fails, so it succeeds; the text depends on the value alone.
#[verifier::external_body]
pub(crate) fn emit_document(doc: &YamlValue) -> (r: Result<String, EmitError>)
    ensures
        r is Ok,
        r matches Ok(text) ==> text@ == yaml_text(doc@),
{
    let outside = to_outside(doc);
    let mut out = String::new();
    let mut emitter = YamlEmitter::new(&mut out);
    emitter.compact(true);
    emitter.dump(&outside)?;
    Ok(out)
}

} // verus!
