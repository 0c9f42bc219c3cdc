use vstd::prelude::*;

use crate::doc::{Doc, DocModel, Leaf, Node};

verus! {

#[verifier::external_type_specification]
#[verifier::external_body]
pub struct ExTomlValue(toml::Value);

/// The document a given text parses to, if it parses at all.
pub uninterp spec fn toml_doc_of(text: Seq<char>) -> Option<DocModel>;

/// The text a given document is written out as.
pub uninterp spec fn toml_text_of(d: DocModel) -> Seq<char>;

/// Relies on the TOML parser behind `str::parse::<toml::Table>`: parsing is a
/// function of the text alone, and a parsed table has unique keys at every
/// level, so the returned document is well-formed.
#[verifier::external_body]
pub(crate) fn parse_doc(text: &str) -> (r: Option<Doc>)
    ensures
        match r {
            Some(d) => toml_doc_of(text@) == Some(d@) && d@.wf(),
            None => toml_doc_of(text@) is None,
        },
{
    let table: toml::Table = match text.parse::<toml::Table>() {
        Ok(t) => t,
        Err(_) => return None,
    };
    let mut entries: Vec<(String, Node)> = Vec::new();
    for (k, v) in table.iter() {
        entries.push((k.clone(), node_from(v)));
    }
    Some(Doc { entries })
}

/// Relies on the TOML writer behind `toml::to_string`: on a table of strings,
/// arrays of strings and sub-tables of those, with single fields laid out
/// before sub-tables and unique keys throughout, writing succeeds, is a
/// function of the table alone, and the text parses back to that same table.
#[verifier::external_body]
pub(crate) fn encode_doc(d: &Doc) -> (r: String)
    requires
        d@.encodable(),
    ensures
        r@ == toml_text_of(d@),
        toml_doc_of(r@) == Some(d@),
{
    let mut table = toml::Table::new();
    for (k, n) in d.entries.iter() {
        table.insert(k.clone(), node_to(n));
    }
    match toml::to_string(&table) {
        Ok(s) => s,
        Err(_) => String::new(),
    }
}

/// Conversion half of `parse_doc`: reads one top-level `toml::Value`.
#[verifier::external_body]
fn node_from(v: &toml::Value) -> Node {
    match v {
        toml::Value::Table(t) => {
            let mut fields: Vec<(String, Leaf)> = Vec::new();
            for (k, w) in t.iter() {
                fields.push((k.clone(), leaf_from(w)));
            }
            Node::Table(fields)
        },
        _ => Node::Leaf(leaf_from(v)),
    }
}

/// Conversion half of `parse_doc`: reads one field `toml::Value`.
#[verifier::external_body]
fn leaf_from(v: &toml::Value) -> Leaf {
    match v {
        toml::Value::String(s) => Leaf::Text(s.clone()),
        toml::Value::Array(items) => {
            let mut texts: Vec<String> = Vec::new();
            for it in items.iter() {
                match it {
                    toml::Value::String(s) => texts.push(s.clone()),
                    _ => return Leaf::Other,
                }
            }
            Leaf::List(texts)
        },
        _ => Leaf::Other,
    }
}

/// Conversion half of `encode_doc`: builds one top-level `toml::Value`.
#[verifier::external_body]
fn node_to(n: &Node) -> toml::Value {
    match n {
        Node::Leaf(l) => leaf_to(l),
        Node::Table(fields) => {
            let mut t = toml::Table::new();
            for (k, l) in fields.iter() {
                t.insert(k.clone(), leaf_to(l));
            }
            toml::Value::Table(t)
        },
    }
}

/// Conversion half of `encode_doc`: builds one field `toml::Value`.
/// `Leaf::Other` never reaches the writer: `encode_doc` takes no document
/// that holds one.
#[verifier::external_body]
fn leaf_to(l: &Leaf) -> toml::Value {
    match l {
        Leaf::Text(s) => toml::Value::String(s.clone()),
        Leaf::List(items) => {
            let mut vals: Vec<toml::Value> = Vec::new();
            for s in items.iter() {
                vals.push(toml::Value::String(s.clone()));
            }
            toml::Value::Array(vals)
        },
        Leaf::Other => toml::Value::String(String::new()),
    }
}

} // verus!
