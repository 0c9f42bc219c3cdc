use vstd::prelude::*;

use crate::TagError;
use crate::codec::{encode_doc, parse_doc, toml_doc_of, toml_text_of};
use crate::doc::{
    Doc, DocModel, Leaf, LeafModel, Node, NodeModel, fields_view, list_field, list_field_ok,
    read_list_field, read_text_field, text_field, text_field_ok,
};
use crate::tool_version;
use crate::util::{
    add_all_new, clone_strings, contains_string, keys_of, lemma_add_all_new_push,
    lemma_lookup_at, lemma_lookup_update, lookup, str_views,
};

verus! {

/// One canonical tag: its schema version, alternate names, and children.
pub struct TagDef {
    pub version: String,
    pub aliases: Vec<String>,
    pub subtags: Vec<String>,
}

/// Mathematical form of a `TagDef`.
#[verifier::ext_equal]
pub struct TagDefModel {
    pub version: Seq<char>,
    pub aliases: Seq<Seq<char>>,
    pub subtags: Seq<Seq<char>>,
}

impl View for TagDef {
    type V = TagDefModel;

    open spec fn view(&self) -> TagDefModel {
        TagDefModel {
            version: self.version@,
            aliases: str_views(self.aliases@),
            subtags: str_views(self.subtags@),
        }
    }
}

/// The canonical mapping from tag name to definition, in insertion order.
pub struct Registry {
    pub entries: Vec<(String, TagDef)>,
}

/// Mathematical form of a `Registry`.
#[verifier::ext_equal]
pub struct RegistryModel {
    pub entries: Seq<(Seq<char>, TagDefModel)>,
}

impl View for Registry {
    type V = RegistryModel;

    open spec fn view(&self) -> RegistryModel {
        RegistryModel { entries: self.entries@.map_values(|p: (String, TagDef)| (p.0@, p.1@)) }
    }
}

impl RegistryModel {
    /// The defined tag names, in registry order.
    pub open spec fn names(self) -> Seq<Seq<char>> {
        keys_of(self.entries)
    }

    /// Each tag name is defined once.
    pub open spec fn wf(self) -> bool {
        self.names().no_duplicates()
    }

    pub open spec fn defines(self, name: Seq<char>) -> bool {
        self.names().contains(name)
    }

    pub open spec fn def_of(self, name: Seq<char>) -> Option<TagDefModel> {
        lookup(self.entries, name)
    }

    /// The direct children of a tag; an undefined tag has none.
    pub open spec fn subtags_of(self, name: Seq<char>) -> Seq<Seq<char>> {
        match self.def_of(name) {
            Some(d) => d.subtags,
            None => Seq::empty(),
        }
    }

    /// What defining a name does: a no-op when present, else a fresh entry.
    pub open spec fn define_spec(self, name: Seq<char>, version: Seq<char>) -> RegistryModel {
        if self.defines(name) {
            self
        } else {
            RegistryModel {
                entries: self.entries.push(
                    (name, TagDefModel { version, aliases: Seq::empty(), subtags: Seq::empty() }),
                ),
            }
        }
    }

    /// Defining each name of `names` in turn.
    pub open spec fn define_all_spec(self, names: Seq<Seq<char>>, version: Seq<char>) -> RegistryModel
        decreases names.len(),
    {
        if names.len() == 0 {
            self
        } else {
            self.define_spec(names[0], version).define_all_spec(names.drop_first(), version)
        }
    }
}

/// The table a tag definition is written out as.
pub open spec fn node_of_tagdef(d: TagDefModel) -> NodeModel {
    NodeModel::Table(
        seq![
            ("version"@, LeafModel::Text(d.version)),
            ("aliases"@, LeafModel::List(d.aliases)),
            ("subtags"@, LeafModel::List(d.subtags)),
        ],
    )
}

/// A top-level document value that decodes as a tag definition.
pub open spec fn tagdef_node_ok(n: NodeModel) -> bool {
    match n {
        NodeModel::Table(fields) => text_field_ok(fields, "version"@) && list_field_ok(
            fields,
            "aliases"@,
        ) && list_field_ok(fields, "subtags"@),
        _ => false,
    }
}

/// The tag definition a well-shaped value decodes to.
pub open spec fn tagdef_of_node(n: NodeModel) -> TagDefModel {
    match n {
        NodeModel::Table(fields) => TagDefModel {
            version: text_field(fields, "version"@),
            aliases: list_field(fields, "aliases"@),
            subtags: list_field(fields, "subtags"@),
        },
        _ => TagDefModel { version: Seq::empty(), aliases: Seq::empty(), subtags: Seq::empty() },
    }
}

/// A document that decodes as a registry: every entry is a tag table.
pub open spec fn registry_doc_ok(d: DocModel) -> bool {
    forall|i: int| 0 <= i < d.entries.len() ==> tagdef_node_ok(#[trigger] d.entries[i].1)
}

/// The registry a well-shaped document decodes to.
pub open spec fn registry_of_doc(d: DocModel) -> RegistryModel {
    RegistryModel {
        entries: d.entries.map_values(|p: (Seq<char>, NodeModel)| (p.0, tagdef_of_node(p.1))),
    }
}

/// The document a registry is written out as.
pub open spec fn doc_of_registry(reg: RegistryModel) -> DocModel {
    DocModel {
        entries: reg.entries.map_values(|p: (Seq<char>, TagDefModel)| (p.0, node_of_tagdef(p.1))),
    }
}

/// What loading registry text yields, when it parses and is well-shaped.
pub open spec fn registry_of_text(text: Seq<char>) -> Option<RegistryModel> {
    match toml_doc_of(text) {
        None => None,
        Some(d) => if registry_doc_ok(d) {
            Some(registry_of_doc(d))
        } else {
            None
        },
    }
}

/// The three field names of a tag table differ from one another.
proof fn lemma_tag_field_names_distinct()
    ensures
        "version"@ != "aliases"@,
        "version"@ != "subtags"@,
        "aliases"@ != "subtags"@,
{
    reveal_strlit("version");
    reveal_strlit("aliases");
    reveal_strlit("subtags");
    assert(("version"@)[0] == 'v');
    assert(("aliases"@)[0] == 'a');
    assert(("subtags"@)[0] == 's');
}

/// A written-out tag definition decodes back to itself.
proof fn lemma_tagdef_node_round_trip(d: TagDefModel)
    ensures
        node_of_tagdef(d).wf(),
        tagdef_node_ok(node_of_tagdef(d)),
        tagdef_of_node(node_of_tagdef(d)) == d,
{
    lemma_tag_field_names_distinct();
    let fields = seq![
        ("version"@, LeafModel::Text(d.version)),
        ("aliases"@, LeafModel::List(d.aliases)),
        ("subtags"@, LeafModel::List(d.subtags)),
    ];
    lemma_lookup_at(fields, 0);
    lemma_lookup_at(fields, 1);
    lemma_lookup_at(fields, 2);
    assert(keys_of(fields).no_duplicates()) by {
        assert(keys_of(fields)[0] == "version"@);
        assert(keys_of(fields)[1] == "aliases"@);
        assert(keys_of(fields)[2] == "subtags"@);
    }
    assert(tagdef_of_node(node_of_tagdef(d)) =~= d);
}

/// Law: a registry written out as a document reads back unchanged, and the
/// document is one the codec accepts.
pub proof fn lemma_registry_doc_round_trip(reg: RegistryModel)
    ensures
        reg.wf() ==> doc_of_registry(reg).wf(),
        reg.wf() ==> doc_of_registry(reg).encodable(),
        registry_doc_ok(doc_of_registry(reg)),
        registry_of_doc(doc_of_registry(reg)) == reg,
{
    let d = doc_of_registry(reg);
    assert forall|i: int| 0 <= i < d.entries.len() implies tagdef_node_ok(
        #[trigger] d.entries[i].1,
    ) && (#[trigger] d.entries[i].1).wf() by {
        lemma_tagdef_node_round_trip(reg.entries[i].1);
    }
    assert(registry_of_doc(d) =~= reg) by {
        assert forall|i: int| 0 <= i < d.entries.len() implies registry_of_doc(d).entries[i]
            == reg.entries[i] by {
            lemma_tagdef_node_round_trip(reg.entries[i].1);
        }
    }
    if reg.wf() {
        assert(d.keys() =~= reg.names());
        assert(d.fields_before_tables());
        assert(d.no_other()) by {
            assert forall|i: int| 0 <= i < d.entries.len() implies match #[trigger] d.entries[i].1 {
                NodeModel::Leaf(l) => !(l is Other),
                NodeModel::Table(es) => forall|j: int|
                    0 <= j < es.len() ==> !((#[trigger] es[j].1) is Other),
            } by {
                let es = seq![
                    ("version"@, LeafModel::Text(reg.entries[i].1.version)),
                    ("aliases"@, LeafModel::List(reg.entries[i].1.aliases)),
                    ("subtags"@, LeafModel::List(reg.entries[i].1.subtags)),
                ];
                assert(forall|j: int| 0 <= j < es.len() ==> !((#[trigger] es[j].1) is Other));
            }
        }
    }
}

/// The names of `names` that `reg` does not define, in order, repeats kept.
pub open spec fn undefined_in(reg: RegistryModel, names: Seq<Seq<char>>) -> Seq<Seq<char>> {
    names.filter(|c: Seq<char>| !reg.defines(c))
}

/// How one more name changes the rejected list.
pub proof fn lemma_undefined_in_step(reg: RegistryModel, names: Seq<Seq<char>>, j: int)
    requires
        0 <= j < names.len(),
    ensures
        undefined_in(reg, names.take(j + 1)) == if !reg.defines(names[j]) {
            undefined_in(reg, names.take(j)).push(names[j])
        } else {
            undefined_in(reg, names.take(j))
        },
{
    assert(names.take(j + 1).drop_last() =~= names.take(j));
    assert(names.take(j + 1).last() == names[j]);
    reveal_with_fuel(Seq::filter, 2);
}

impl Registry {
    /// A registry with no definitions.
    pub fn new_empty() -> (r: Registry)
        ensures
            r@.entries == Seq::<(Seq<char>, TagDefModel)>::empty(),
            r@.wf(),
    {
        let r = Registry { entries: Vec::new() };
        proof {
            assert(r@.entries =~= Seq::<(Seq<char>, TagDefModel)>::empty());
        }
        r
    }

    /// The position of a name's entry, when the name is defined.
    fn find_index(&self, name: &String) -> (r: Option<usize>)
        ensures
            match r {
                Some(i) => i < self@.entries.len() && self@.entries[i as int].0 == name@
                    && (forall|j: int| 0 <= j < i ==> (#[trigger] self@.entries[j]).0 != name@),
                None => !self@.defines(name@),
            },
    {
        let mut i: usize = 0;
        while i < self.entries.len()
            invariant
                0 <= i <= self.entries@.len(),
                self@.entries.len() == self.entries@.len(),
                forall|j: int| 0 <= j < i ==> (#[trigger] self@.entries[j]).0 != name@,
            decreases self.entries@.len() - i,
        {
            if self.entries[i].0 == *name {
                assert(self@.entries[i as int].0 == name@);
                return Some(i);
            }
            assert(self@.entries[i as int].0 != name@);
            i = i + 1;
        }
        proof {
            if self@.defines(name@) {
                let j = choose|j: int|
                    0 <= j < self@.names().len() && self@.names()[j] == name@;
                assert(self@.entries[j].0 == name@);
            }
        }
        None
    }

    /// Whether a tag of this name is defined.
    pub fn contains(&self, name: &String) -> (r: bool)
        ensures
            r == self@.defines(name@),
    {
        match self.find_index(name) {
            Some(i) => {
                proof {
                    assert(self@.names()[i as int] == name@);
                }
                true
            },
            None => false,
        }
    }

    /// Whether every name is defined once, as every stored registry has it.
    pub fn is_wf(&self) -> (r: bool)
        ensures
            r == self@.wf(),
    {
        let mut i: usize = 0;
        while i < self.entries.len()
            invariant
                0 <= i <= self.entries@.len(),
                forall|a: int, b: int|
                    0 <= a < b < self@.entries.len() && a < i ==> self@.names()[a]
                        != self@.names()[b],
            decreases self.entries@.len() - i,
        {
            let mut j: usize = i + 1;
            while j < self.entries.len()
                invariant
                    0 <= i < j <= self.entries@.len(),
                    forall|b: int| i < b < j ==> self@.names()[i as int] != self@.names()[b],
                decreases self.entries@.len() - j,
            {
                if self.entries[i].0 == self.entries[j].0 {
                    proof {
                        assert(self@.names()[i as int] == self@.names()[j as int]);
                    }
                    return false;
                }
                proof {
                    assert(self@.names()[i as int] != self@.names()[j as int]);
                }
                j = j + 1;
            }
            i = i + 1;
        }
        true
    }

    /// The direct subtags of a defined tag.
    pub fn get_subtags<'a>(&'a self, name: &String) -> (r: Option<&'a Vec<String>>)
        ensures
            match r {
                Some(v) => self@.defines(name@) && str_views(v@) == self@.subtags_of(name@),
                None => !self@.defines(name@),
            },
    {
        match self.find_index(name) {
            Some(i) => {
                proof {
                    assert(self@.names()[i as int] == name@);
                    lemma_lookup_at(self@.entries, i as int);
                }
                Some(&self.entries[i].1.subtags)
            },
            None => None,
        }
    }

    /// Defines a tag under the tool's version: a no-op if it already exists.
    pub fn define(&mut self, name: &String)
        ensures
            final(self)@ == old(self)@.define_spec(name@, "1.0.0"@),
            old(self)@.wf() ==> final(self)@.wf(),
    {
        if !self.contains(name) {
            let def = TagDef { version: tool_version(), aliases: Vec::new(), subtags: Vec::new() };
            let ghost old_model = self@;
            self.entries.push((name.clone(), def));
            proof {
                assert(self@.entries =~= old_model.entries.push(
                    (name@, TagDefModel {
                        version: "1.0.0"@,
                        aliases: Seq::empty(),
                        subtags: Seq::empty(),
                    }),
                )) by {
                    assert(str_views(Seq::<String>::empty()) =~= Seq::<Seq<char>>::empty());
                }
                if old_model.wf() {
                    assert(self@.names() =~= old_model.names().push(name@));
                    assert forall|a: int, b: int|
                        0 <= a < b < self@.names().len() implies self@.names()[a]
                        != self@.names()[b] by {
                        if b == old_model.names().len() {
                            assert(old_model.names()[a] == self@.names()[a]);
                            assert(!old_model.defines(name@));
                            if old_model.names()[a] == name@ {
                                assert(old_model.names().contains(name@));
                            }
                        }
                    }
                }
            }
        }
    }

    /// Adds each of `children` as a subtag of `parent`, atomically: when the
    /// parent or any child is unknown, nothing changes and every unknown name
    /// is reported together.
    pub fn add_subtags(&mut self, parent: &String, children: &Vec<String>) -> (r: Result<
        (),
        TagError,
    >)
        requires
            old(self)@.wf(),
        ensures
            final(self)@.wf(),
            match r {
                Ok(()) => {
                    &&& old(self)@.defines(parent@)
                    &&& undefined_in(old(self)@, str_views(children@)) == Seq::<Seq<char>>::empty()
                    &&& final(self)@.names() == old(self)@.names()
                    &&& final(self)@.subtags_of(parent@) == add_all_new(
                        old(self)@.subtags_of(parent@),
                        str_views(children@),
                    )
                    &&& forall|n: Seq<char>|
                        n != parent@ ==> final(self)@.def_of(n) == old(self)@.def_of(n)
                    &&& match (final(self)@.def_of(parent@), old(self)@.def_of(parent@)) {
                        (Some(nd), Some(od)) => nd.version == od.version && nd.aliases
                            == od.aliases,
                        _ => false,
                    }
                },
                Err(TagError::UnknownTags(bad)) => {
                    &&& final(self)@ == old(self)@
                    &&& bad@.len() > 0
                    &&& if old(self)@.defines(parent@) {
                        str_views(bad@) == undefined_in(old(self)@, str_views(children@))
                    } else {
                        str_views(bad@) == seq![parent@]
                    }
                },
                Err(_) => false,
            },
    {
        let pidx: usize = match self.find_index(parent) {
            None => {
                let mut bad: Vec<String> = Vec::new();
                bad.push(parent.clone());
                proof {
                    assert(str_views(bad@) =~= seq![parent@]);
                }
                return Err(TagError::UnknownTags(bad));
            },
            Some(i) => i,
        };
        proof {
            assert(self@.names()[pidx as int] == parent@);
            lemma_lookup_at(self@.entries, pidx as int);
        }
        let ghost cviews = str_views(children@);
        let ghost orig = self@;
        let mut bad: Vec<String> = Vec::new();
        let mut j: usize = 0;
        proof {
            assert(cviews.take(0) =~= Seq::<Seq<char>>::empty());
            assert(str_views(bad@) =~= undefined_in(orig, cviews.take(0)));
        }
        while j < children.len()
            invariant
                0 <= j <= children@.len(),
                cviews == str_views(children@),
                orig == self@,
                self@ == old(self)@,
                str_views(bad@) =~= undefined_in(orig, cviews.take(j as int)),
            decreases children@.len() - j,
        {
            proof {
                lemma_undefined_in_step(orig, cviews, j as int);
                assert(cviews.take(j + 1).drop_last() =~= cviews.take(j as int));
            }
            if !self.contains(&children[j]) {
                let ghost bad0 = bad@;
                bad.push(children[j].clone());
                proof {
                    assert(cviews[j as int] == children@[j as int]@);
                    assert(str_views(bad@) =~= str_views(bad0).push(children@[j as int]@));
                }
            }
            j = j + 1;
        }
        proof {
            assert(cviews.take(cviews.len() as int) =~= cviews);
        }
        if bad.len() > 0 {
            proof {
                assert(str_views(bad@).len() == bad@.len());
            }
            return Err(TagError::UnknownTags(bad));
        }
        proof {
            assert(undefined_in(orig, cviews) =~= Seq::<Seq<char>>::empty());
            assert forall|i: int| 0 <= i < cviews.len() implies orig.defines(
                #[trigger] cviews[i],
            ) by {
                if !orig.defines(cviews[i]) {
                    cviews.lemma_filter_contains(|c: Seq<char>| !orig.defines(c), i);
                }
            }
        }
        let ghost base = orig.subtags_of(parent@);
        let mut j: usize = 0;
        proof {
            assert(cviews.take(0) =~= Seq::<Seq<char>>::empty());
        }
        while j < children.len()
            invariant
                0 <= j <= children@.len(),
                cviews == str_views(children@),
                pidx < self.entries@.len(),
                self@.entries.len() == old(self)@.entries.len(),
                old(self)@.wf(),
                old(self)@.entries[pidx as int].0 == parent@,
                base == old(self)@.entries[pidx as int].1.subtags,
                self@.entries[pidx as int].0 == parent@,
                self@.entries[pidx as int].1.subtags =~= add_all_new(base, cviews.take(j as int)),
                self@.entries[pidx as int].1.version == old(self)@.entries[pidx as int].1.version,
                self@.entries[pidx as int].1.aliases == old(self)@.entries[pidx as int].1.aliases,
                forall|i: int|
                    0 <= i < self@.entries.len() && i != pidx ==> self@.entries[i] == old(
                        self,
                    )@.entries[i],
            decreases children@.len() - j,
        {
            let c = &children[j];
            let ghost cur = self@.entries[pidx as int].1.subtags;
            proof {
                assert(cur =~= str_views(self.entries@[pidx as int].1.subtags@));
                assert(cviews.take(j + 1) =~= cviews.take(j as int).push(cviews[j as int]));
                lemma_add_all_new_push(base, cviews.take(j as int), cviews[j as int]);
                assert(cviews[j as int] == children@[j as int]@);
            }
            if !contains_string(&self.entries[pidx].1.subtags, c) {
                let ghost sub0 = self.entries@[pidx as int].1.subtags@;
                self.entries[pidx].1.subtags.push(c.clone());
                proof {
                    assert(str_views(sub0.push(children@[j as int])) =~= str_views(sub0).push(
                        children@[j as int]@,
                    ));
                    assert(self@.entries[pidx as int].1.subtags =~= cur.push(cviews[j as int]));
                }
            }
            j = j + 1;
        }
        proof {
            assert(cviews.take(cviews.len() as int) =~= cviews);
            let newdef = self@.entries[pidx as int].1;
            assert(self@.entries =~= old(self)@.entries.update(
                pidx as int,
                (parent@, newdef),
            ));
            assert(self@.names() =~= old(self)@.names());
            assert forall|n: Seq<char>| n != parent@ implies final(self)@.def_of(n) == old(
                self,
            )@.def_of(n) by {
                lemma_lookup_update(old(self)@.entries, pidx as int, newdef, n);
            }
            lemma_lookup_update(old(self)@.entries, pidx as int, newdef, parent@);
        }
        Ok(())
    }

    /// Every defined tag beside its direct subtags, in registry order.
    pub fn list(&self) -> (r: Vec<(String, Vec<String>)>)
        ensures
            r@.len() == self@.entries.len(),
            forall|i: int|
                0 <= i < r@.len() ==> (#[trigger] r@[i]).0@ == self@.entries[i].0 && str_views(
                    r@[i].1@,
                ) == self@.entries[i].1.subtags,
    {
        let mut out: Vec<(String, Vec<String>)> = Vec::new();
        let mut i: usize = 0;
        while i < self.entries.len()
            invariant
                0 <= i <= self.entries@.len(),
                out@.len() == i,
                forall|j: int|
                    0 <= j < i ==> (#[trigger] out@[j]).0@ == self@.entries[j].0 && str_views(
                        out@[j].1@,
                    ) == self@.entries[j].1.subtags,
            decreases self.entries@.len() - i,
        {
            let name = self.entries[i].0.clone();
            let subs = clone_strings(&self.entries[i].1.subtags);
            out.push((name, subs));
            i = i + 1;
        }
        out
    }

    /// Strict schema decode of a parsed document.
    pub fn from_doc(d: &Doc) -> (r: Result<Registry, TagError>)
        ensures
            match r {
                Ok(reg) => registry_doc_ok(d@) && reg@ == registry_of_doc(d@) && (d@.wf()
                    ==> reg@.wf()),
                Err(TagError::Schema) => !registry_doc_ok(d@),
                Err(_) => false,
            },
    {
        let version_key = "version".to_owned();
        let aliases_key = "aliases".to_owned();
        let subtags_key = "subtags".to_owned();
        let mut entries: Vec<(String, TagDef)> = Vec::new();
        let mut i: usize = 0;
        while i < d.entries.len()
            invariant
                0 <= i <= d.entries@.len(),
                version_key@ == "version"@,
                aliases_key@ == "aliases"@,
                subtags_key@ == "subtags"@,
                entries@.len() == i,
                forall|j: int|
                    0 <= j < i ==> tagdef_node_ok(#[trigger] d@.entries[j].1),
                forall|j: int|
                    0 <= j < i ==> (#[trigger] entries@[j]).0@ == d@.entries[j].0
                        && entries@[j].1@ == tagdef_of_node(d@.entries[j].1),
            decreases d.entries@.len() - i,
        {
            let fields = match &d.entries[i].1 {
                Node::Table(fields) => fields,
                Node::Leaf(_) => {
                    proof {
                        assert(!tagdef_node_ok(d@.entries[i as int].1));
                    }
                    return Err(TagError::Schema);
                },
            };
            proof {
                assert(d@.entries[i as int].1 == NodeModel::Table(fields_view(fields@)));
            }
            let version = match read_text_field(fields, &version_key) {
                Ok(s) => s,
                Err(_) => {
                    proof {
                        assert(!tagdef_node_ok(d@.entries[i as int].1));
                    }
                    return Err(TagError::Schema);
                },
            };
            let aliases = match read_list_field(fields, &aliases_key) {
                Ok(v) => v,
                Err(_) => {
                    proof {
                        assert(!tagdef_node_ok(d@.entries[i as int].1));
                    }
                    return Err(TagError::Schema);
                },
            };
            let subtags = match read_list_field(fields, &subtags_key) {
                Ok(v) => v,
                Err(_) => {
                    proof {
                        assert(!tagdef_node_ok(d@.entries[i as int].1));
                    }
                    return Err(TagError::Schema);
                },
            };
            let def = TagDef { version, aliases, subtags };
            entries.push((d.entries[i].0.clone(), def));
            i = i + 1;
        }
        let reg = Registry { entries };
        proof {
            assert(reg@.entries =~= registry_of_doc(d@).entries);
            if d@.wf() {
                assert(reg@.names() =~= d@.keys());
            }
        }
        Ok(reg)
    }

    /// The document this registry is written out as.
    pub fn to_doc(&self) -> (r: Doc)
        ensures
            r@ == doc_of_registry(self@),
    {
        let mut entries: Vec<(String, Node)> = Vec::new();
        let mut i: usize = 0;
        while i < self.entries.len()
            invariant
                0 <= i <= self.entries@.len(),
                entries@.len() == i,
                forall|j: int|
                    0 <= j < i ==> (#[trigger] entries@[j]).0@ == self@.entries[j].0
                        && entries@[j].1@ == node_of_tagdef(self@.entries[j].1),
            decreases self.entries@.len() - i,
        {
            let def = &self.entries[i].1;
            let mut fields: Vec<(String, Leaf)> = Vec::new();
            fields.push(("version".to_owned(), Leaf::Text(def.version.clone())));
            fields.push(("aliases".to_owned(), Leaf::List(clone_strings(&def.aliases))));
            fields.push(("subtags".to_owned(), Leaf::List(clone_strings(&def.subtags))));
            let node = Node::Table(fields);
            proof {
                assert(fields_view(fields@) =~= seq![
                    ("version"@, LeafModel::Text(def.version@)),
                    ("aliases"@, LeafModel::List(str_views(def.aliases@))),
                    ("subtags"@, LeafModel::List(str_views(def.subtags@))),
                ]);
                assert(node@ == node_of_tagdef(self@.entries[i as int].1));
            }
            entries.push((self.entries[i].0.clone(), node));
            i = i + 1;
        }
        let d = Doc { entries };
        proof {
            assert(d@.entries =~= doc_of_registry(self@).entries);
        }
        d
    }
}

/// Decodes registry text: the parse, then the strict schema check.
pub fn load_registry(text: &str) -> (r: Result<Registry, TagError>)
    ensures
        match r {
            Ok(reg) => registry_of_text(text@) == Some(reg@) && reg@.wf(),
            Err(TagError::Decode) => toml_doc_of(text@) is None,
            Err(TagError::Schema) => (toml_doc_of(text@) matches Some(d) && !registry_doc_ok(d)),
            Err(_) => false,
        },
        r is Ok <==> registry_of_text(text@) is Some,
{
    match parse_doc(text) {
        None => Err(TagError::Decode),
        Some(d) => Registry::from_doc(&d),
    }
}

/// Writes a registry out wholesale; reading the text back yields the same
/// registry.
pub fn store_registry(reg: &Registry) -> (r: String)
    requires
        reg@.wf(),
    ensures
        r@ == toml_text_of(doc_of_registry(reg@)),
        registry_of_text(r@) == Some(reg@),
{
    let d = reg.to_doc();
    proof {
        lemma_registry_doc_round_trip(reg@);
    }
    encode_doc(&d)
}

/// The decision at the heart of initialization: refuse when a registry
/// already governs the target or its marker file already exists, else hand
/// back the empty registry document to write there.
pub fn init_registry_text(governed: bool, marker_file_present: bool) -> (r: Result<
    String,
    TagError,
>)
    ensures
        r is Err <==> (governed || marker_file_present),
        match r {
            Ok(text) => registry_of_text(text@) == Some(
                RegistryModel { entries: Seq::empty() },
            ),
            Err(TagError::AlreadyExists) => governed || marker_file_present,
            Err(_) => false,
        },
{
    if governed || marker_file_present {
        return Err(TagError::AlreadyExists);
    }
    let reg = Registry::new_empty();
    Ok(store_registry(&reg))
}

impl Registry {
    /// Defines every name of `names` in turn, in the given order.
    pub fn define_all(&mut self, names: &Vec<String>)
        ensures
            final(self)@ == old(self)@.define_all_spec(str_views(names@), "1.0.0"@),
            old(self)@.wf() ==> final(self)@.wf(),
    {
        let ghost all = str_views(names@);
        proof {
            assert(all.skip(0) =~= all);
        }
        let mut i: usize = 0;
        while i < names.len()
            invariant
                0 <= i <= names@.len(),
                all == str_views(names@),
                old(self)@.define_all_spec(all, "1.0.0"@) == self@.define_all_spec(
                    all.skip(i as int),
                    "1.0.0"@,
                ),
                old(self)@.wf() ==> self@.wf(),
            decreases names@.len() - i,
        {
            let ghost before = self@;
            self.define(&names[i]);
            proof {
                assert(all.skip(i as int)[0] == names@[i as int]@);
                assert(all.skip(i as int).drop_first() =~= all.skip(i + 1));
            }
            i = i + 1;
        }
        proof {
            assert(all.skip(names@.len() as int) =~= Seq::<Seq<char>>::empty());
        }
    }
}

} // verus!
