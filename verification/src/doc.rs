use vstd::prelude::*;

verus! {

use crate::TagError;
use crate::util::{clone_strings, keys_of, lemma_lookup_skip, lookup, str_views};

/// One field value inside a document: a string, a list of strings, or
/// anything else the codec met (kept only so a strict decode can reject it).
pub enum Leaf {
    Text(String),
    List(Vec<String>),
    Other,
}

/// A top-level value of a document: a single field, or a table of fields.
pub enum Node {
    Leaf(Leaf),
    Table(Vec<(String, Leaf)>),
}

/// A structured document: an ordered list of keyed top-level values.
/// This is the plain form in which the codec hands a parsed file to the
/// schema layer, and in which the schema layer hands a document back.
pub struct Doc {
    pub entries: Vec<(String, Node)>,
}

/// Mathematical form of a `Leaf`.
#[verifier::ext_equal]
pub enum LeafModel {
    Text(Seq<char>),
    List(Seq<Seq<char>>),
    Other,
}

/// Mathematical form of a `Node`.
#[verifier::ext_equal]
pub enum NodeModel {
    Leaf(LeafModel),
    Table(Seq<(Seq<char>, LeafModel)>),
}

/// Mathematical form of a `Doc`.
#[verifier::ext_equal]
pub struct DocModel {
    pub entries: Seq<(Seq<char>, NodeModel)>,
}

impl View for Leaf {
    type V = LeafModel;

    open spec fn view(&self) -> LeafModel {
        match self {
            Leaf::Text(s) => LeafModel::Text(s@),
            Leaf::List(v) => LeafModel::List(v@.map_values(|s: String| s@)),
            Leaf::Other => LeafModel::Other,
        }
    }
}

impl View for Node {
    type V = NodeModel;

    open spec fn view(&self) -> NodeModel {
        match self {
            Node::Leaf(l) => NodeModel::Leaf(l@),
            Node::Table(es) => NodeModel::Table(
                es@.map_values(|p: (String, Leaf)| (p.0@, p.1@)),
            ),
        }
    }
}

impl View for Doc {
    type V = DocModel;

    open spec fn view(&self) -> DocModel {
        DocModel { entries: self.entries@.map_values(|p: (String, Node)| (p.0@, p.1@)) }
    }
}

impl NodeModel {
    /// Keys are unique inside a table node.
    pub open spec fn wf(self) -> bool {
        match self {
            NodeModel::Leaf(_) => true,
            NodeModel::Table(es) => keys_of(es).no_duplicates(),
        }
    }
}

impl DocModel {
    pub open spec fn keys(self) -> Seq<Seq<char>> {
        keys_of(self.entries)
    }

    /// Keys are unique at the top level and inside every table.
    pub open spec fn wf(self) -> bool {
        &&& self.keys().no_duplicates()
        &&& forall|i: int| 0 <= i < self.entries.len() ==> (#[trigger] self.entries[i].1).wf()
    }

    /// No `Other` value anywhere: everything can be written back out.
    pub open spec fn no_other(self) -> bool {
        forall|i: int| 0 <= i < self.entries.len() ==> match #[trigger] self.entries[i].1 {
            NodeModel::Leaf(l) => !(l is Other),
            NodeModel::Table(es) => forall|j: int| 0 <= j < es.len()
                ==> !((#[trigger] es[j].1) is Other),
        }
    }

    /// The writer lays single fields out before tables, so a document is
    /// only handed to it when no table entry precedes a field entry.
    pub open spec fn fields_before_tables(self) -> bool {
        forall|i: int, j: int| 0 <= i < j < self.entries.len()
            && (#[trigger] self.entries[i].1) is Table
            ==> !((#[trigger] self.entries[j].1) is Leaf)
    }

    /// A document the codec accepts to write out.
    pub open spec fn encodable(self) -> bool {
        self.wf() && self.no_other() && self.fields_before_tables()
    }
}

/// The mathematical form of a table's fields.
pub open spec fn fields_view(fields: Seq<(String, Leaf)>) -> Seq<(Seq<char>, LeafModel)> {
    fields.map_values(|p: (String, Leaf)| (p.0@, p.1@))
}

/// A field is well-shaped as text when absent or a string.
pub open spec fn text_field_ok(fields: Seq<(Seq<char>, LeafModel)>, key: Seq<char>) -> bool {
    match lookup(fields, key) {
        None => true,
        Some(LeafModel::Text(_)) => true,
        Some(_) => false,
    }
}

/// The text of a field, the empty text when it is absent.
pub open spec fn text_field(fields: Seq<(Seq<char>, LeafModel)>, key: Seq<char>) -> Seq<char> {
    match lookup(fields, key) {
        Some(LeafModel::Text(s)) => s,
        _ => Seq::empty(),
    }
}

/// A field is well-shaped as a list when absent or a list of strings.
pub open spec fn list_field_ok(fields: Seq<(Seq<char>, LeafModel)>, key: Seq<char>) -> bool {
    match lookup(fields, key) {
        None => true,
        Some(LeafModel::List(_)) => true,
        Some(_) => false,
    }
}

/// The items of a list field, none when it is absent.
pub open spec fn list_field(fields: Seq<(Seq<char>, LeafModel)>, key: Seq<char>) -> Seq<
    Seq<char>,
> {
    match lookup(fields, key) {
        Some(LeafModel::List(l)) => l,
        _ => Seq::empty(),
    }
}

/// The mathematical form of a document's top-level entries.
pub open spec fn nodes_view(es: Seq<(String, Node)>) -> Seq<(Seq<char>, NodeModel)> {
    es.map_values(|p: (String, Node)| (p.0@, p.1@))
}

/// A top-level field is well-shaped as text when absent or a string.
pub open spec fn top_text_ok(es: Seq<(Seq<char>, NodeModel)>, key: Seq<char>) -> bool {
    match lookup(es, key) {
        None => true,
        Some(NodeModel::Leaf(LeafModel::Text(_))) => true,
        Some(_) => false,
    }
}

/// The text of a top-level field, the empty text when it is absent.
pub open spec fn top_text(es: Seq<(Seq<char>, NodeModel)>, key: Seq<char>) -> Seq<char> {
    match lookup(es, key) {
        Some(NodeModel::Leaf(LeafModel::Text(s))) => s,
        _ => Seq::empty(),
    }
}

/// A top-level field is well-shaped as a list when absent or a string list.
pub open spec fn top_list_ok(es: Seq<(Seq<char>, NodeModel)>, key: Seq<char>) -> bool {
    match lookup(es, key) {
        None => true,
        Some(NodeModel::Leaf(LeafModel::List(_))) => true,
        Some(_) => false,
    }
}

/// The items of a top-level list field, none when it is absent.
pub open spec fn top_list(es: Seq<(Seq<char>, NodeModel)>, key: Seq<char>) -> Seq<Seq<char>> {
    match lookup(es, key) {
        Some(NodeModel::Leaf(LeafModel::List(l))) => l,
        _ => Seq::empty(),
    }
}

/// The first top-level entry of the given name, if any.
pub fn find_node<'a>(es: &'a Vec<(String, Node)>, key: &String) -> (r: Option<&'a Node>)
    ensures
        match r {
            Some(n) => lookup(nodes_view(es@), key@) == Some(n@),
            None => lookup(nodes_view(es@), key@) is None,
        },
{
    let ghost nv = nodes_view(es@);
    let mut i: usize = 0;
    while i < es.len()
        invariant
            0 <= i <= es@.len(),
            nv == nodes_view(es@),
            forall|j: int| 0 <= j < i ==> (#[trigger] nv[j]).0 != key@,
        decreases es@.len() - i,
    {
        if es[i].0 == *key {
            proof {
                lemma_lookup_skip(nv, key@, i as int);
                assert(nv.skip(i as int)[0] == nv[i as int]);
            }
            return Some(&es[i].1);
        }
        assert(nv[i as int].0 != key@);
        i = i + 1;
    }
    proof {
        lemma_lookup_skip(nv, key@, es@.len() as int);
        assert(nv.skip(nv.len() as int) =~= Seq::<(Seq<char>, NodeModel)>::empty());
    }
    None
}

/// Reads a top-level text field strictly: absent means empty.
pub fn read_top_text(es: &Vec<(String, Node)>, key: &String) -> (r: Result<String, TagError>)
    ensures
        match r {
            Ok(s) => top_text_ok(nodes_view(es@), key@) && s@ == top_text(nodes_view(es@), key@),
            Err(TagError::Schema) => !top_text_ok(nodes_view(es@), key@),
            Err(_) => false,
        },
{
    match find_node(es, key) {
        None => Ok(String::new()),
        Some(Node::Leaf(Leaf::Text(s))) => Ok(s.clone()),
        Some(_) => Err(TagError::Schema),
    }
}

/// Reads a top-level list field strictly: absent means empty.
pub fn read_top_list(es: &Vec<(String, Node)>, key: &String) -> (r: Result<Vec<String>, TagError>)
    ensures
        match r {
            Ok(v) => top_list_ok(nodes_view(es@), key@) && str_views(v@) == top_list(
                nodes_view(es@),
                key@,
            ),
            Err(TagError::Schema) => !top_list_ok(nodes_view(es@), key@),
            Err(_) => false,
        },
{
    match find_node(es, key) {
        None => {
            let r: Vec<String> = Vec::new();
            proof {
                assert(str_views(r@) =~= Seq::<Seq<char>>::empty());
            }
            Ok(r)
        },
        Some(Node::Leaf(Leaf::List(v))) => Ok(clone_strings(v)),
        Some(_) => Err(TagError::Schema),
    }
}

/// The first field of the given name, if any.
pub fn find_leaf<'a>(fields: &'a Vec<(String, Leaf)>, key: &String) -> (r: Option<&'a Leaf>)
    ensures
        match r {
            Some(l) => lookup(fields_view(fields@), key@) == Some(l@),
            None => lookup(fields_view(fields@), key@) is None,
        },
{
    let ghost fv = fields_view(fields@);
    let mut i: usize = 0;
    while i < fields.len()
        invariant
            0 <= i <= fields@.len(),
            fv == fields_view(fields@),
            forall|j: int| 0 <= j < i ==> (#[trigger] fv[j]).0 != key@,
        decreases fields@.len() - i,
    {
        if fields[i].0 == *key {
            proof {
                lemma_lookup_skip(fv, key@, i as int);
                assert(fv.skip(i as int)[0] == fv[i as int]);
            }
            return Some(&fields[i].1);
        }
        assert(fv[i as int].0 != key@);
        i = i + 1;
    }
    proof {
        lemma_lookup_skip(fv, key@, fields@.len() as int);
        assert(fv.skip(fv.len() as int) =~= Seq::<(Seq<char>, LeafModel)>::empty());
    }
    None
}

/// Reads a text field strictly: absent means empty, a non-string is refused.
pub fn read_text_field(fields: &Vec<(String, Leaf)>, key: &String) -> (r: Result<
    String,
    TagError,
>)
    ensures
        match r {
            Ok(s) => text_field_ok(fields_view(fields@), key@) && s@ == text_field(
                fields_view(fields@),
                key@,
            ),
            Err(TagError::Schema) => !text_field_ok(fields_view(fields@), key@),
            Err(_) => false,
        },
{
    match find_leaf(fields, key) {
        None => Ok(String::new()),
        Some(Leaf::Text(s)) => Ok(s.clone()),
        Some(_) => Err(TagError::Schema),
    }
}

/// Reads a list field strictly: absent means empty, a non-list is refused.
pub fn read_list_field(fields: &Vec<(String, Leaf)>, key: &String) -> (r: Result<
    Vec<String>,
    TagError,
>)
    ensures
        match r {
            Ok(v) => list_field_ok(fields_view(fields@), key@) && str_views(v@) == list_field(
                fields_view(fields@),
                key@,
            ),
            Err(TagError::Schema) => !list_field_ok(fields_view(fields@), key@),
            Err(_) => false,
        },
{
    match find_leaf(fields, key) {
        None => {
            let r: Vec<String> = Vec::new();
            proof {
                assert(str_views(r@) =~= Seq::<Seq<char>>::empty());
            }
            Ok(r)
        },
        Some(Leaf::List(v)) => Ok(clone_strings(v)),
        Some(_) => Err(TagError::Schema),
    }
}

} // verus!
