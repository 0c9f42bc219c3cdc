use vstd::prelude::*;

use crate::TagError;
use crate::codec::{encode_doc, parse_doc, toml_doc_of, toml_text_of};
use crate::doc::{
    Doc, DocModel, Leaf, LeafModel, Node, NodeModel, nodes_view, read_top_list, read_top_text,
    top_list, top_list_ok, top_text, top_text_ok,
};
use crate::registry::{Registry, RegistryModel, undefined_in, lemma_undefined_in_step};
use crate::tool_version;
use crate::util::{
    add_new, clone_strings, contains_string, keys_of, lemma_add_new_facts, lemma_lookup_at,
    str_views,
};

verus! {

/// The per-target record of applied tags, stored beside what it tags.
pub struct Sidecar {
    pub version: String,
    pub tags: Vec<String>,
}

/// Mathematical form of a `Sidecar`.
#[verifier::ext_equal]
pub struct SidecarModel {
    pub version: Seq<char>,
    pub tags: Seq<Seq<char>>,
}

impl View for Sidecar {
    type V = SidecarModel;

    open spec fn view(&self) -> SidecarModel {
        SidecarModel { version: self.version@, tags: str_views(self.tags@) }
    }
}

impl SidecarModel {
    /// Each tag is recorded once.
    pub open spec fn wf(self) -> bool {
        self.tags.no_duplicates()
    }
}

/// Applying a batch of names: each one the registry defines is added, each
/// at most once; the rest leave the record unchanged.
pub open spec fn apply_defined(
    tags: Seq<Seq<char>>,
    reg: RegistryModel,
    ts: Seq<Seq<char>>,
) -> Seq<Seq<char>>
    decreases ts.len(),
{
    if ts.len() == 0 {
        tags
    } else {
        let step = if reg.defines(ts[0]) {
            add_new(tags, ts[0])
        } else {
            tags
        };
        apply_defined(step, reg, ts.drop_first())
    }
}

/// Adding one more name at the end of the batch applies it last.
pub proof fn lemma_apply_defined_push(
    tags: Seq<Seq<char>>,
    reg: RegistryModel,
    ts: Seq<Seq<char>>,
    x: Seq<char>,
)
    ensures
        apply_defined(tags, reg, ts.push(x)) == if reg.defines(x) {
            add_new(apply_defined(tags, reg, ts), x)
        } else {
            apply_defined(tags, reg, ts)
        },
    decreases ts.len(),
{
    let step = if reg.defines(x) {
        add_new(tags, x)
    } else {
        tags
    };
    if ts.len() == 0 {
        assert(ts.push(x)[0] == x);
        assert(ts.push(x).drop_first() =~= Seq::<Seq<char>>::empty());
        assert(apply_defined(tags, reg, ts.push(x)) == apply_defined(
            step,
            reg,
            Seq::<Seq<char>>::empty(),
        ));
        assert(apply_defined(step, reg, Seq::<Seq<char>>::empty()) == step);
        assert(apply_defined(tags, reg, ts) == tags);
    } else {
        let first = if reg.defines(ts[0]) {
            add_new(tags, ts[0])
        } else {
            tags
        };
        assert(ts.push(x)[0] == ts[0]);
        assert(ts.push(x).drop_first() =~= ts.drop_first().push(x));
        assert(apply_defined(tags, reg, ts.push(x)) == apply_defined(
            first,
            reg,
            ts.drop_first().push(x),
        ));
        assert(apply_defined(tags, reg, ts) == apply_defined(first, reg, ts.drop_first()));
        lemma_apply_defined_push(first, reg, ts.drop_first(), x);
    }
}

/// Law: applying the same tag to the same record twice leaves the record as
/// applying it once does.
pub proof fn lemma_apply_idempotent(tags: Seq<Seq<char>>, reg: RegistryModel, t: Seq<char>)
    ensures
        apply_defined(apply_defined(tags, reg, seq![t]), reg, seq![t]) == apply_defined(
            tags,
            reg,
            seq![t],
        ),
{
    let once = apply_defined(tags, reg, seq![t]);
    assert(seq![t][0] == t);
    assert(seq![t].drop_first() =~= Seq::<Seq<char>>::empty());
    if reg.defines(t) {
        lemma_add_new_facts(tags, t);
        assert(once == apply_defined(add_new(tags, t), reg, Seq::<Seq<char>>::empty()));
        assert(once == add_new(tags, t));
        assert(add_new(tags, t).contains(t));
        assert(apply_defined(once, reg, seq![t]) == apply_defined(
            add_new(once, t),
            reg,
            Seq::<Seq<char>>::empty(),
        ));
    } else {
        assert(once == apply_defined(tags, reg, Seq::<Seq<char>>::empty()));
        assert(apply_defined(once, reg, seq![t]) == apply_defined(
            once,
            reg,
            Seq::<Seq<char>>::empty(),
        ));
    }
}

/// The document a sidecar is written out as.
pub open spec fn doc_of_sidecar(sc: SidecarModel) -> DocModel {
    DocModel {
        entries: seq![
            ("version"@, NodeModel::Leaf(LeafModel::Text(sc.version))),
            ("tags"@, NodeModel::Leaf(LeafModel::List(sc.tags))),
        ],
    }
}

/// A document that decodes as a sidecar: both consulted fields well-shaped.
pub open spec fn sidecar_doc_ok(d: DocModel) -> bool {
    top_text_ok(d.entries, "version"@) && top_list_ok(d.entries, "tags"@)
}

/// The sidecar a well-shaped document decodes to.
pub open spec fn sidecar_of_doc(d: DocModel) -> SidecarModel {
    SidecarModel { version: top_text(d.entries, "version"@), tags: top_list(d.entries, "tags"@) }
}

/// What loading sidecar text yields, when it parses and is well-shaped.
pub open spec fn sidecar_of_text(text: Seq<char>) -> Option<SidecarModel> {
    match toml_doc_of(text) {
        None => None,
        Some(d) => if sidecar_doc_ok(d) {
            Some(sidecar_of_doc(d))
        } else {
            None
        },
    }
}

/// Law: a sidecar written out as a document reads back unchanged, and the
/// document is one the codec accepts.
pub proof fn lemma_sidecar_doc_round_trip(sc: SidecarModel)
    ensures
        doc_of_sidecar(sc).encodable(),
        sidecar_doc_ok(doc_of_sidecar(sc)),
        sidecar_of_doc(doc_of_sidecar(sc)) == sc,
{
    let d = doc_of_sidecar(sc);
    assert("version"@ != "tags"@) by {
        reveal_strlit("version");
        reveal_strlit("tags");
        assert(("version"@).len() == 7);
        assert(("tags"@).len() == 4);
    }
    lemma_lookup_at(d.entries, 0);
    lemma_lookup_at(d.entries, 1);
    assert(keys_of(d.entries).no_duplicates()) by {
        assert(keys_of(d.entries)[0] == "version"@);
        assert(keys_of(d.entries)[1] == "tags"@);
    }
    assert(sidecar_of_doc(d) =~= sc);
}

impl Sidecar {
    /// Strict schema decode of a parsed document.
    pub fn from_doc(d: &Doc) -> (r: Result<Sidecar, TagError>)
        ensures
            match r {
                Ok(sc) => sidecar_doc_ok(d@) && sc@ == sidecar_of_doc(d@),
                Err(TagError::Schema) => !sidecar_doc_ok(d@),
                Err(_) => false,
            },
    {
        proof {
            assert(nodes_view(d.entries@) =~= d@.entries);
        }
        let version = match read_top_text(&d.entries, &"version".to_owned()) {
            Ok(s) => s,
            Err(_) => {
                return Err(TagError::Schema);
            },
        };
        let tags = match read_top_list(&d.entries, &"tags".to_owned()) {
            Ok(v) => v,
            Err(_) => {
                return Err(TagError::Schema);
            },
        };
        Ok(Sidecar { version, tags })
    }

    /// The document this sidecar is written out as.
    pub fn to_doc(&self) -> (r: Doc)
        ensures
            r@ == doc_of_sidecar(self@),
    {
        let mut entries: Vec<(String, Node)> = Vec::new();
        entries.push(("version".to_owned(), Node::Leaf(Leaf::Text(self.version.clone()))));
        entries.push(("tags".to_owned(), Node::Leaf(Leaf::List(clone_strings(&self.tags)))));
        let d = Doc { entries };
        proof {
            assert(d@.entries =~= doc_of_sidecar(self@).entries);
        }
        d
    }

    /// A record with no tags, as a freshly created sidecar file holds.
    pub fn new_empty() -> (r: Sidecar)
        ensures
            r@.version == Seq::<char>::empty(),
            r@.tags == Seq::<Seq<char>>::empty(),
            r@.wf(),
    {
        let r = Sidecar { version: String::new(), tags: Vec::new() };
        proof {
            assert(r@.tags =~= Seq::<Seq<char>>::empty());
        }
        r
    }

    /// Records one tag; recording a present tag changes nothing.
    pub fn add_tag(&mut self, t: &String)
        ensures
            final(self)@.version == old(self)@.version,
            final(self)@.tags == add_new(old(self)@.tags, t@),
            old(self)@.wf() ==> final(self)@.wf(),
    {
        proof {
            lemma_add_new_facts(old(self)@.tags, t@);
        }
        if !contains_string(&self.tags, t) {
            let ghost tags0 = self.tags@;
            self.tags.push(t.clone());
            proof {
                assert(str_views(self.tags@) =~= str_views(tags0).push(t@));
            }
        }
    }

    /// Applies a batch of names under the registry: every defined name is
    /// recorded (each once), every undefined name is reported, and the
    /// defined ones stay recorded even when others are rejected.
    pub fn apply_tags(&mut self, reg: &Registry, names: &Vec<String>) -> (r: Result<
        (),
        TagError,
    >)
        ensures
            final(self)@.version == "1.0.0"@,
            final(self)@.tags == apply_defined(old(self)@.tags, reg@, str_views(names@)),
            old(self)@.wf() ==> final(self)@.wf(),
            match r {
                Ok(()) => undefined_in(reg@, str_views(names@)) == Seq::<Seq<char>>::empty(),
                Err(TagError::UnknownTags(bad)) => str_views(bad@) == undefined_in(
                    reg@,
                    str_views(names@),
                ) && bad@.len() > 0,
                Err(_) => false,
            },
    {
        self.version = tool_version();
        let ghost nviews = str_views(names@);
        let ghost tags0 = self@.tags;
        let mut bad: Vec<String> = Vec::new();
        let mut i: usize = 0;
        proof {
            assert(nviews.take(0) =~= Seq::<Seq<char>>::empty());
            assert(str_views(bad@) =~= undefined_in(reg@, nviews.take(0)));
        }
        while i < names.len()
            invariant
                0 <= i <= names@.len(),
                nviews == str_views(names@),
                self@.version == "1.0.0"@,
                self@.tags =~= apply_defined(tags0, reg@, nviews.take(i as int)),
                str_views(bad@) =~= undefined_in(reg@, nviews.take(i as int)),
                tags0.no_duplicates() ==> self@.tags.no_duplicates(),
            decreases names@.len() - i,
        {
            let t = &names[i];
            proof {
                assert(nviews.take(i + 1) =~= nviews.take(i as int).push(nviews[i as int]));
                lemma_apply_defined_push(tags0, reg@, nviews.take(i as int), nviews[i as int]);
                lemma_undefined_in_step(reg@, nviews, i as int);
                assert(nviews.take(i + 1).drop_last() =~= nviews.take(i as int));
                assert(nviews[i as int] == names@[i as int]@);
                lemma_add_new_facts(self@.tags, nviews[i as int]);
            }
            if reg.contains(t) {
                self.add_tag(t);
            } else {
                let ghost bad0 = bad@;
                bad.push(t.clone());
                proof {
                    assert(str_views(bad@) =~= str_views(bad0).push(t@));
                }
            }
            i = i + 1;
        }
        proof {
            assert(nviews.take(nviews.len() as int) =~= nviews);
        }
        if bad.len() > 0 {
            proof {
                assert(str_views(bad@).len() == bad@.len());
            }
            return Err(TagError::UnknownTags(bad));
        }
        proof {
            assert(undefined_in(reg@, nviews) =~= Seq::<Seq<char>>::empty());
        }
        Ok(())
    }
}

/// Decodes sidecar text: the parse, then the strict schema check.
pub fn load_sidecar(text: &str) -> (r: Result<Sidecar, TagError>)
    ensures
        match r {
            Ok(sc) => sidecar_of_text(text@) == Some(sc@),
            Err(TagError::Decode) => toml_doc_of(text@) is None,
            Err(TagError::Schema) => (toml_doc_of(text@) matches Some(d) && !sidecar_doc_ok(d)),
            Err(_) => false,
        },
        r is Ok <==> sidecar_of_text(text@) is Some,
{
    match parse_doc(text) {
        None => Err(TagError::Decode),
        Some(d) => Sidecar::from_doc(&d),
    }
}

/// Writes a sidecar out wholesale; reading the text back yields the same
/// record.
pub fn store_sidecar(sc: &Sidecar) -> (r: String)
    ensures
        r@ == toml_text_of(doc_of_sidecar(sc@)),
        sidecar_of_text(r@) == Some(sc@),
{
    let d = sc.to_doc();
    proof {
        lemma_sidecar_doc_round_trip(sc@);
    }
    encode_doc(&d)
}

} // verus!
